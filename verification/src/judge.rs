//! The payout judge: which cells a wager covers, and what a spin pays.

use vstd::prelude::*;
use crate::bets::{bet_views, Bet, BetView, Placement};
use crate::text::{decimal, decimal_digits, decimal_string, digit_char, parse_i32, parsed_i32};
use crate::seqs::{lemma_push_contains, lemma_push_keeps_distinct, lemma_take_contains};
use crate::unicode::{all_numeric, is_all_numeric, is_number_char};

verus! {

/// Side length of one board cell, in the units of a wager's local position.
/// The zero cell is as tall as three cells and shares an edge with each.
pub const BOX_SIZE: i32 = 10;

/// What one spin means for one player's wagers.
#[derive(Clone, Copy, Debug, PartialEq, Eq)]
pub struct Judgement {
    /// Sum of the payouts of the wagers that cover the winning number.
    pub winning_amount: i128,
    /// Sum of the amounts of all wagers, winning or not.
    pub bet_amount: i128,
}

/// The contents of a list of cell names, in order.
pub open spec fn cell_texts(cells: Seq<String>) -> Seq<Seq<char>> {
    cells.map_values(|c: String| c@)
}

/// Quotient of `a` by a positive `b`, rounded towards zero.
pub open spec fn truncated_div(a: int, b: int) -> int {
    if a >= 0 {
        a / b
    } else {
        -((-a) / b)
    }
}

/// Remainder of `a` by a positive `b` that goes with [`truncated_div`]: it
/// has the sign of `a`.
pub open spec fn truncated_rem(a: int, b: int) -> int {
    if a >= 0 {
        a % b
    } else {
        -((-a) % b)
    }
}

/// The name of the cell with number `n`, as far as the board has one:
/// numbers below zero fall onto the zero cell, numbers above 36 onto no cell
/// (the empty name).
pub open spec fn sanitized(n: int) -> Seq<char> {
    if n < 0 {
        seq!['0']
    } else if n > 36 {
        Seq::empty()
    } else {
        decimal(n)
    }
}

/// The numbers `start`, `start + step`, ... below `stop`. A negative step
/// never reaches a second number.
pub open spec fn range_numbers(start: int, stop: int, step: int) -> Seq<int>
    decreases
        (if start < stop {
            stop - start
        } else {
            0
        }),
{
    if start >= stop {
        Seq::empty()
    } else if step <= 0 {
        seq![start]
    } else {
        seq![start] + range_numbers(start + step, stop, step)
    }
}

/// The names of the cells [`range_numbers`] lists.
pub open spec fn range_cells(start: int, stop: int, step: int) -> Seq<Seq<char>> {
    range_numbers(start, stop, step).map_values(|n: int| decimal(n))
}

/// Whether the cell `n` of the board is red. Every other cell from 1 to 36
/// is black.
pub open spec fn is_red(n: int) -> bool {
    n == 1 || n == 3 || n == 5 || n == 7 || n == 9 || n == 12 || n == 14 || n == 16 || n == 18
        || n == 19 || n == 21 || n == 23 || n == 25 || n == 27 || n == 30 || n == 32 || n == 34
        || n == 36
}

/// The cells from 1 to `limit` whose colour is red (`red`) or black
/// (`!red`), in increasing order.
pub open spec fn coloured_numbers(limit: nat, red: bool) -> Seq<int>
    decreases limit,
{
    if limit == 0 {
        Seq::empty()
    } else if is_red(limit as int) == red {
        coloured_numbers((limit - 1) as nat, red).push(limit as int)
    } else {
        coloured_numbers((limit - 1) as nat, red)
    }
}

/// The names of the 18 cells of one colour.
pub open spec fn colour_cells(red: bool) -> Seq<Seq<char>> {
    coloured_numbers(36, red).map_values(|n: int| decimal(n))
}

/// The number that a cell label stands for: its value where it reads as a
/// signed 32-bit decimal number, and zero otherwise.
pub open spec fn label_number(label: Seq<char>) -> int {
    match parsed_i32(label) {
        Some(n) => n,
        None => 0,
    }
}

/// How far the neighbours that a chip touches lie from the chip's own cell.
/// The board has three rows, so the pattern depends on the cell's number
/// modulo three and on the corner the chip sits on.
pub open spec fn neighbour_offsets(remainder: int, placement: Placement) -> Seq<int> {
    if remainder == 1 {
        match placement {
            Placement::TopLeft => seq![-3, -2, -1, 1, 2],
            Placement::TopRight => seq![1, 2, 3, 4, 5],
            _ => Seq::empty(),
        }
    } else if remainder == 2 {
        match placement {
            Placement::TopLeft => seq![-4, -3, -1],
            Placement::BottomRight => seq![1, 3, 4],
            _ => Seq::empty(),
        }
    } else if remainder == 0 {
        match placement {
            Placement::TopLeft => seq![-4, -3, -1],
            Placement::BottomRight => seq![-2, -1, 1, 2, 3],
            _ => Seq::empty(),
        }
    } else {
        Seq::empty()
    }
}

/// What a chip on a numbered cell touches, as it is read off the board: the
/// cell's own label, then the neighbours that its placement touches. At the
/// board's edge a neighbour may come twice or fall on no cell.
pub open spec fn numbered_names(label: Seq<char>, placement: Placement) -> Seq<Seq<char>> {
    let number = label_number(label);
    seq![label] + neighbour_offsets(truncated_rem(number, 3), placement).map_values(
        |d: int| sanitized(number + d),
    )
}

/// The cells that a named range stands for. A label that names no range
/// covers nothing.
pub open spec fn named_cells(label: Seq<char>) -> Seq<Seq<char>> {
    if label == "3rd"@ {
        range_cells(1, 37, 3)
    } else if label == "2nd"@ {
        range_cells(2, 37, 3)
    } else if label == "1st"@ {
        range_cells(3, 37, 3)
    } else if label == "1-12"@ {
        range_cells(1, 13, 1)
    } else if label == "13-24"@ {
        range_cells(13, 25, 1)
    } else if label == "25-36"@ {
        range_cells(25, 37, 1)
    } else if label == "1-18"@ {
        range_cells(1, 19, 1)
    } else if label == "19-36"@ {
        range_cells(19, 37, 1)
    } else if label == "even"@ {
        range_cells(2, 37, 2)
    } else if label == "odd"@ {
        range_cells(1, 37, 2)
    } else if label == "red"@ {
        colour_cells(true)
    } else if label == "black"@ {
        colour_cells(false)
    } else {
        Seq::empty()
    }
}

/// What a wager touches, as it is read off the board, given whether its
/// label consists of number characters only. The list may hold a name twice,
/// and names that are the name of no cell.
///
/// The zero cell touches itself; a chip on its right edge also touches the
/// neighbour that the chip's height points at. A label of number characters
/// is a numbered cell. Any other label is read as the name of a range.
pub open spec fn touched_names(bet: BetView, numeric: bool) -> Seq<Seq<char>> {
    if bet.label == "0"@ {
        if bet.placement == Placement::Right {
            seq![bet.label, decimal(truncated_div(bet.local_position.1, BOX_SIZE as int) + 1)]
        } else {
            seq![bet.label]
        }
    } else if numeric {
        numbered_names(bet.label, bet.placement)
    } else {
        named_cells(bet.label)
    }
}

/// Whether `name` is the name of a cell of the board: the decimal text of a
/// number from 0 to 36.
pub open spec fn is_cell_name(name: Seq<char>) -> bool {
    exists|k: int| 0 <= k <= 36 && name == #[trigger] decimal(k)
}

/// The cells of the board among `names`, each once, in the order in which
/// they first occur.
pub open spec fn board_cells(names: Seq<Seq<char>>) -> Seq<Seq<char>>
    decreases names.len(),
{
    if names.len() == 0 {
        Seq::empty()
    } else {
        let earlier = board_cells(names.drop_last());
        if is_cell_name(names.last()) && !earlier.contains(names.last()) {
            earlier.push(names.last())
        } else {
            earlier
        }
    }
}

/// The set of board cells that a wager covers, given whether its label
/// consists of number characters only: what it touches, without the names of
/// no cell, each cell once.
pub open spec fn covered_cells(bet: BetView, numeric: bool) -> Seq<Seq<char>> {
    board_cells(touched_names(bet, numeric))
}

/// The set of board cells that a wager covers.
pub open spec fn bet_cells(bet: BetView) -> Seq<Seq<char>> {
    covered_cells(bet, all_numeric(bet.label))
}

/// What one unit staked on `cells` cells returns when one of them wins.
pub open spec fn multiplier(cells: nat) -> int {
    if cells == 1 {
        35
    } else if cells == 2 {
        17
    } else if cells == 3 {
        11
    } else if cells == 4 {
        8
    } else if cells == 6 {
        5
    } else if cells == 12 {
        2
    } else if cells == 18 {
        1
    } else {
        0
    }
}

/// What a wager of `amount` on `cells` pays when `lucky_number` comes up.
pub open spec fn payout(cells: Seq<Seq<char>>, amount: int, lucky_number: int) -> int {
    if cells.contains(decimal(lucky_number)) {
        multiplier(cells.len()) * amount
    } else {
        0
    }
}

/// The sum of what each wager pays when `lucky_number` comes up.
pub open spec fn winning_amount(bets: Seq<BetView>, lucky_number: int) -> int
    decreases bets.len(),
{
    if bets.len() == 0 {
        0
    } else {
        winning_amount(bets.drop_last(), lucky_number) + payout(
            bet_cells(bets.last()),
            bets.last().amount,
            lucky_number,
        )
    }
}

/// The sum of the amounts of all wagers.
pub open spec fn total_wagered(bets: Seq<BetView>) -> int
    decreases bets.len(),
{
    if bets.len() == 0 {
        0
    } else {
        total_wagered(bets.drop_last()) + bets.last().amount
    }
}

/// The cells of the board among a list of names form a set: no cell comes
/// twice, every entry is the name of a cell, and a name is among them exactly
/// if it is listed and names a cell.
pub proof fn lemma_board_cells(names: Seq<Seq<char>>)
    ensures
        board_cells(names).no_duplicates(),
        board_cells(names).len() <= names.len(),
        forall|i: int|
            0 <= i < board_cells(names).len() ==> is_cell_name(#[trigger] board_cells(names)[i]),
        forall|name: Seq<char>| #[trigger]
            board_cells(names).contains(name) <==> names.contains(name) && is_cell_name(name),
    decreases names.len(),
{
    let cells = board_cells(names);
    if names.len() == 0 {
    } else {
        let earlier = board_cells(names.drop_last());
        let last = names.last();
        lemma_board_cells(names.drop_last());
        if is_cell_name(last) && !earlier.contains(last) {
            lemma_push_keeps_distinct(earlier, last);
        }
        assert forall|name: Seq<char>| #[trigger]
            cells.contains(name) <==> names.contains(name) && is_cell_name(name) by {
            lemma_push_contains(earlier, last, name);
            lemma_push_contains(names.drop_last(), last, name);
            assert(names.drop_last().push(last) =~= names);
        }
    }
}

/// The names of a list of numbers, in order.
pub open spec fn cell_names(numbers: Seq<int>) -> Seq<Seq<char>> {
    numbers.map_values(|n: int| decimal(n))
}

/// Different cells of the board have different names.
pub proof fn lemma_cell_names_differ(j: int, k: int)
    requires
        0 <= j <= 36,
        0 <= k <= 36,
        j != k,
    ensures
        decimal(j) != decimal(k),
{
    reveal_with_fuel(decimal_digits, 3);
    let a = decimal(j);
    let b = decimal(k);
    if j < 10 && k < 10 {
        assert(a[0] == digit_char(j));
        assert(b[0] == digit_char(k));
    } else if j >= 10 && k >= 10 {
        assert(a.len() == 2 && b.len() == 2);
        assert(a[0] == digit_char(j / 10) && a[1] == digit_char(j % 10));
        assert(b[0] == digit_char(k / 10) && b[1] == digit_char(k % 10));
    } else {
        assert(a.len() != b.len());
    }
}

/// A list of different cells of the board is the set of cells it covers:
/// nothing is left out of it and nothing comes twice.
pub proof fn lemma_distinct_cells_are_kept(numbers: Seq<int>)
    requires
        numbers.no_duplicates(),
        forall|i: int| 0 <= i < numbers.len() ==> 0 <= #[trigger] numbers[i] <= 36,
    ensures
        board_cells(cell_names(numbers)) == cell_names(numbers),
    decreases numbers.len(),
{
    let names = cell_names(numbers);
    if numbers.len() > 0 {
        let shorter = numbers.drop_last();
        let last = numbers.last();
        lemma_distinct_cells_are_kept(shorter);
        assert(names.drop_last() =~= cell_names(shorter));
        assert(names.last() == decimal(last));
        let earlier = board_cells(names.drop_last());
        if earlier.contains(decimal(last)) {
            let i = choose|i: int| 0 <= i < earlier.len() && earlier[i] == decimal(last);
            assert(earlier[i] == decimal(shorter[i]));
            assert(numbers[i] == shorter[i]);
            if numbers[i] != last {
                lemma_cell_names_differ(numbers[i], last);
            }
            assert(numbers[i] == numbers[numbers.len() - 1]);
        }
        assert(board_cells(names) =~= names);
    } else {
        assert(board_cells(names) =~= names);
    }
}

/// The numbers of a range with a positive step lie between its bounds and
/// grow.
pub proof fn lemma_range_numbers_grow(start: int, stop: int, step: int)
    requires
        step > 0,
    ensures
        forall|i: int|
            0 <= i < range_numbers(start, stop, step).len() ==> start <= #[trigger] range_numbers(
                start,
                stop,
                step,
            )[i] < stop,
        forall|i: int, j: int|
            0 <= i < j < range_numbers(start, stop, step).len() ==> #[trigger] range_numbers(
                start,
                stop,
                step,
            )[i] < #[trigger] range_numbers(start, stop, step)[j],
    decreases
        (if start < stop {
            stop - start
        } else {
            0
        }),
{
    if start < stop {
        lemma_range_numbers_grow(start + step, stop, step);
        let rest = range_numbers(start + step, stop, step);
        let all = range_numbers(start, stop, step);
        assert(all =~= seq![start] + rest);
        assert forall|i: int| 0 <= i < all.len() implies start <= #[trigger] all[i] < stop by {
            if i > 0 {
                assert(all[i] == rest[i - 1]);
            }
        }
        assert forall|i: int, j: int| 0 <= i < j < all.len() implies #[trigger] all[i]
            < #[trigger] all[j] by {
            assert(all[j] == rest[j - 1]);
            if i > 0 {
                assert(all[i] == rest[i - 1]);
            }
        }
    }
}

/// The cells of one colour lie on the board and grow.
pub proof fn lemma_coloured_numbers_grow(limit: nat, red: bool)
    ensures
        forall|i: int|
            0 <= i < coloured_numbers(limit, red).len() ==> 1 <= #[trigger] coloured_numbers(
                limit,
                red,
            )[i] <= limit,
        forall|i: int, j: int|
            0 <= i < j < coloured_numbers(limit, red).len() ==> #[trigger] coloured_numbers(
                limit,
                red,
            )[i] < #[trigger] coloured_numbers(limit, red)[j],
    decreases limit,
{
    if limit > 0 {
        lemma_coloured_numbers_grow((limit - 1) as nat, red);
        let earlier = coloured_numbers((limit - 1) as nat, red);
        let all = coloured_numbers(limit, red);
        assert forall|i: int| 0 <= i < all.len() implies 1 <= #[trigger] all[i] <= limit by {
            if i < earlier.len() {
                assert(all[i] == earlier[i]);
            }
        }
        assert forall|i: int, j: int| 0 <= i < j < all.len() implies #[trigger] all[i]
            < #[trigger] all[j] by {
            assert(all[i] == earlier[i]);
            if j < earlier.len() {
                assert(all[j] == earlier[j]);
            }
        }
    }
}

/// A range of numbers from 1 to 36 is covered as it stands: each of its
/// cells once, and nothing else.
pub proof fn lemma_range_is_a_set(start: int, stop: int, step: int)
    requires
        step > 0,
        0 <= start,
        stop <= 37,
    ensures
        board_cells(range_cells(start, stop, step)) == range_cells(start, stop, step),
{
    lemma_range_numbers_grow(start, stop, step);
    let numbers = range_numbers(start, stop, step);
    assert(range_cells(start, stop, step) =~= cell_names(numbers));
    lemma_distinct_cells_are_kept(numbers);
}

/// The cells of one colour are covered as they stand.
pub proof fn lemma_colour_is_a_set(red: bool)
    ensures
        board_cells(colour_cells(red)) == colour_cells(red),
{
    lemma_coloured_numbers_grow(36, red);
    let numbers = coloured_numbers(36, red);
    assert(colour_cells(red) =~= cell_names(numbers));
    lemma_distinct_cells_are_kept(numbers);
}

/// A wager on one of the cells from 1 to 36 covers a set of board cells that
/// holds the cell itself: no cell comes twice, and every entry is the name of
/// a cell, whatever the placement and however near the board's edge.
pub proof fn lemma_numbered_cell_is_covered(bet: BetView, n: int)
    requires
        1 <= n <= 36,
        bet.label == decimal(n),
    ensures
        bet_cells(bet) == board_cells(numbered_names(bet.label, bet.placement)),
        bet_cells(bet).contains(bet.label),
        bet_cells(bet).no_duplicates(),
        forall|i: int| 0 <= i < bet_cells(bet).len() ==> is_cell_name(#[trigger] bet_cells(bet)[i]),
{
    reveal_with_fuel(decimal_digits, 3);
    reveal_strlit("0");
    assert("0"@ =~= decimal(0));
    lemma_cell_names_differ(n, 0);
    assert(all_numeric(bet.label)) by {
        assert forall|i: int| 0 <= i < bet.label.len() implies is_number_char(
            #[trigger] bet.label[i],
        ) by {
            if n < 10 {
                assert(bet.label[i] == digit_char(n));
            } else {
                assert(bet.label[0] == digit_char(n / 10));
                assert(bet.label[1] == digit_char(n % 10));
            }
        }
    }
    let names = numbered_names(bet.label, bet.placement);
    assert(names[0] == bet.label);
    assert(names.contains(bet.label));
    assert(is_cell_name(bet.label));
    lemma_board_cells(names);
}

/// A wager on a named range covers the cells of the range, each once, and
/// nothing else; a label that names neither a cell nor a range covers
/// nothing.
pub proof fn lemma_named_range_is_covered(bet: BetView)
    requires
        bet.label != "0"@,
        !all_numeric(bet.label),
    ensures
        bet_cells(bet) == named_cells(bet.label),
{
    lemma_range_is_a_set(1, 37, 3);
    lemma_range_is_a_set(2, 37, 3);
    lemma_range_is_a_set(3, 37, 3);
    lemma_range_is_a_set(1, 13, 1);
    lemma_range_is_a_set(13, 25, 1);
    lemma_range_is_a_set(25, 37, 1);
    lemma_range_is_a_set(1, 19, 1);
    lemma_range_is_a_set(19, 37, 1);
    lemma_range_is_a_set(2, 37, 2);
    lemma_range_is_a_set(1, 37, 2);
    lemma_colour_is_a_set(true);
    lemma_colour_is_a_set(false);
    assert(board_cells(Seq::<Seq<char>>::empty()) =~= Seq::<Seq<char>>::empty());
}

/// A column and a dozen cover twelve cells each; a half of the board, be it
/// low or high, even or odd, red or black, covers eighteen.
pub proof fn lemma_named_range_sizes()
    ensures
        range_cells(1, 37, 3).len() == 12,
        range_cells(2, 37, 3).len() == 12,
        range_cells(3, 37, 3).len() == 12,
        range_cells(1, 13, 1).len() == 12,
        range_cells(13, 25, 1).len() == 12,
        range_cells(25, 37, 1).len() == 12,
        range_cells(1, 19, 1).len() == 18,
        range_cells(19, 37, 1).len() == 18,
        range_cells(2, 37, 2).len() == 18,
        range_cells(1, 37, 2).len() == 18,
        colour_cells(true).len() == 18,
        colour_cells(false).len() == 18,
{
    reveal_with_fuel(range_numbers, 20);
    reveal_with_fuel(coloured_numbers, 38);
}

/// Taking the wager at `index` out of the list lowers what the list wins by
/// what that wager pays.
pub proof fn lemma_winning_amount_remove(bets: Seq<BetView>, index: int, lucky_number: int)
    requires
        0 <= index < bets.len(),
    ensures
        winning_amount(bets, lucky_number) == winning_amount(bets.remove(index), lucky_number)
            + payout(bet_cells(bets[index]), bets[index].amount, lucky_number),
    decreases bets.len(),
{
    if index == bets.len() - 1 {
        assert(bets.remove(index) =~= bets.drop_last());
    } else {
        lemma_winning_amount_remove(bets.drop_last(), index, lucky_number);
        assert(bets.remove(index).drop_last() =~= bets.drop_last().remove(index));
        assert(bets.remove(index).last() == bets.last());
    }
}

/// Taking the wager at `index` out of the list lowers the total wagered by
/// that wager's amount.
pub proof fn lemma_total_wagered_remove(bets: Seq<BetView>, index: int)
    requires
        0 <= index < bets.len(),
    ensures
        total_wagered(bets) == total_wagered(bets.remove(index)) + bets[index].amount,
    decreases bets.len(),
{
    if index == bets.len() - 1 {
        assert(bets.remove(index) =~= bets.drop_last());
    } else {
        lemma_total_wagered_remove(bets.drop_last(), index);
        assert(bets.remove(index).drop_last() =~= bets.drop_last().remove(index));
        assert(bets.remove(index).last() == bets.last());
    }
}

/// The judgement does not depend on the order of the wagers: two lists that
/// hold the same wagers, each as often as the other, win the same amount on
/// every number and stake the same total.
pub proof fn lemma_judgement_ignores_order(a: Seq<BetView>, b: Seq<BetView>, lucky_number: int)
    requires
        a.to_multiset() == b.to_multiset(),
    ensures
        winning_amount(a, lucky_number) == winning_amount(b, lucky_number),
        total_wagered(a) == total_wagered(b),
    decreases a.len(),
{
    broadcast use vstd::seq_lib::to_multiset_len, vstd::seq_lib::to_multiset_contains;

    assert(a.len() == b.len()) by {
        assert(a.to_multiset().len() == a.len());
        assert(b.to_multiset().len() == b.len());
    }
    if a.len() > 0 {
        let last = a.last();
        assert(a.contains(last)) by {
            assert(a[a.len() - 1] == last);
        }
        assert(a.to_multiset().count(last) > 0);
        assert(b.contains(last));
        let index = choose|i: int| 0 <= i < b.len() && b[i] == last;
        vstd::seq_lib::to_multiset_remove(a, a.len() - 1);
        vstd::seq_lib::to_multiset_remove(b, index);
        assert(a.remove(a.len() - 1) =~= a.drop_last());
        lemma_judgement_ignores_order(a.drop_last(), b.remove(index), lucky_number);
        lemma_winning_amount_remove(b, index, lucky_number);
        lemma_total_wagered_remove(b, index);
    }
}

/// Whether two texts hold the same characters.
pub fn same_text(a: &str, b: &str) -> (same: bool)
    ensures
        same == (a@ == b@),
{
    let x = a.to_owned();
    let y = b.to_owned();
    x == y
}

/// Names the cell with number `num`: `"0"` for numbers below zero, the empty
/// name for numbers above 36.
pub fn sanitize(num: i32) -> (name: String)
    ensures
        name@ == sanitized(num as int),
{
    if num < 0 {
        proof {
            reveal_strlit("0");
        }
        let name = "0".to_owned();
        assert(name@ =~= sanitized(num as int));
        name
    } else if num > 36 {
        String::new()
    } else {
        decimal_string(num as i64)
    }
}

/// Names the cell that lies `offset` cells from `number`.
fn sanitize_neighbour(number: i32, offset: i32) -> (name: String)
    ensures
        name@ == sanitized(number + offset),
{
    let sum: i64 = number as i64 + offset as i64;
    if sum > 36 {
        sanitize(37)
    } else if sum < 0 {
        sanitize(-1)
    } else {
        sanitize(sum as i32)
    }
}

/// Names the numbers `start`, `start + step`, ... below `stop`.
pub fn range(start: i32, stop: i32, step: i32) -> (cells: Vec<String>)
    requires
        step != 0,
    ensures
        cell_texts(cells@) == range_cells(start as int, stop as int, step as int),
{
    let mut cells: Vec<String> = Vec::new();
    let mut current: i64 = start as i64;
    let ghost mut numbers: Seq<int> = Seq::empty();
    while current < stop as i64
        invariant
            step != 0,
            i32::MIN <= current <= i32::MAX + i32::MAX,
            cell_texts(cells@) == numbers.map_values(|n: int| decimal(n)),
            range_numbers(start as int, stop as int, step as int) == numbers + range_numbers(
                current as int,
                stop as int,
                step as int,
            ),
        decreases
            (if current < stop {
                stop - current
            } else {
                0
            }),
    {
        let name = decimal_string(current);
        proof {
            let before = cell_texts(cells@);
            let after = cell_texts(cells@.push(name));
            assert(after =~= before.push(name@));
            assert(numbers.push(current as int).map_values(|n: int| decimal(n)) =~= numbers.map_values(
                |n: int| decimal(n),
            ).push(decimal(current as int)));
        }
        cells.push(name);
        if step < 0 {
            proof {
                numbers = numbers.push(current as int);
                assert(range_numbers(stop as int, stop as int, step as int) =~= Seq::empty());
                assert(range_numbers(start as int, stop as int, step as int) =~= numbers
                    + range_numbers(stop as int, stop as int, step as int));
            }
            current = stop as i64;
        } else {
            proof {
                let rest = range_numbers(current + step, stop as int, step as int);
                assert(numbers + (seq![current as int] + rest) =~= numbers.push(current as int)
                    + rest);
                numbers = numbers.push(current as int);
            }
            current = current + step as i64;
        }
    }
    proof {
        assert(range_numbers(current as int, stop as int, step as int) =~= Seq::empty());
        assert(numbers + Seq::<int>::empty() =~= numbers);
    }
    cells
}

/// Whether the cell `n` is red.
fn red(n: u32) -> (r: bool)
    ensures
        r == is_red(n as int),
{
    n == 1 || n == 3 || n == 5 || n == 7 || n == 9 || n == 12 || n == 14 || n == 16 || n == 18
        || n == 19 || n == 21 || n == 23 || n == 25 || n == 27 || n == 30 || n == 32 || n == 34
        || n == 36
}

/// Names the 18 cells that are red (`want_red`) or black.
pub fn colour_range(want_red: bool) -> (cells: Vec<String>)
    ensures
        cell_texts(cells@) == colour_cells(want_red),
{
    let mut cells: Vec<String> = Vec::new();
    let mut n: u32 = 0;
    while n < 36
        invariant
            n <= 36,
            cell_texts(cells@) == coloured_numbers(n as nat, want_red).map_values(
                |k: int| decimal(k),
            ),
        decreases 36 - n,
    {
        n += 1;
        if red(n) == want_red {
            let name = decimal_string(n as i64);
            proof {
                let earlier = coloured_numbers((n - 1) as nat, want_red);
                assert(cell_texts(cells@.push(name)) =~= cell_texts(cells@).push(name@));
                assert(earlier.push(n as int).map_values(|k: int| decimal(k))
                    =~= earlier.map_values(|k: int| decimal(k)).push(decimal(n as int)));
            }
            cells.push(name);
        }
    }
    cells
}

/// Remainder of `n` by three, with the sign of `n`.
fn remainder_by_three(n: i32) -> (r: i32)
    ensures
        r == truncated_rem(n as int, 3),
{
    if n >= 0 {
        n % 3
    } else {
        let magnitude: i64 = 0 - (n as i64);
        let r: i64 = magnitude % 3;
        (0 - r) as i32
    }
}

/// Quotient of `n` by [`BOX_SIZE`], rounded towards zero.
fn boxes_of(n: i32) -> (q: i32)
    ensures
        q == truncated_div(n as int, BOX_SIZE as int),
{
    if n >= 0 {
        n / BOX_SIZE
    } else {
        let magnitude: i64 = 0 - (n as i64);
        let q: i64 = magnitude / (BOX_SIZE as i64);
        (0 - q) as i32
    }
}

/// The offsets of the neighbours that a chip on a numbered cell touches.
fn offsets_for(remainder: i32, placement: Placement) -> (offsets: Vec<i32>)
    ensures
        offsets@.map_values(|d: i32| d as int) == neighbour_offsets(remainder as int, placement),
        forall|i: int| 0 <= i < offsets.len() ==> -5 <= #[trigger] offsets[i] <= 5,
{
    let offsets: Vec<i32> = if remainder == 1 {
        match placement {
            Placement::TopLeft => vec![-3, -2, -1, 1, 2],
            Placement::TopRight => vec![1, 2, 3, 4, 5],
            _ => Vec::new(),
        }
    } else if remainder == 2 {
        match placement {
            Placement::TopLeft => vec![-4, -3, -1],
            Placement::BottomRight => vec![1, 3, 4],
            _ => Vec::new(),
        }
    } else if remainder == 0 {
        match placement {
            Placement::TopLeft => vec![-4, -3, -1],
            Placement::BottomRight => vec![-2, -1, 1, 2, 3],
            _ => Vec::new(),
        }
    } else {
        Vec::new()
    };
    assert(offsets@.map_values(|d: i32| d as int) =~= neighbour_offsets(
        remainder as int,
        placement,
    ));
    offsets
}

/// Names the cells a chip on the numbered cell `label` covers.
fn numbered(label: &String, placement: Placement) -> (cells: Vec<String>)
    ensures
        cell_texts(cells@) == numbered_names(label@, placement),
{
    let number: i32 = match parse_i32(label.as_str()) {
        Some(n) => n,
        None => 0,
    };
    let offsets = offsets_for(remainder_by_three(number), placement);
    let ghost wanted = neighbour_offsets(truncated_rem(number as int, 3), placement).map_values(
        |d: int| sanitized(number + d),
    );
    let mut cells: Vec<String> = Vec::new();
    cells.push(label.clone());
    assert(cell_texts(cells@) =~= seq![label@]);
    let mut i: usize = 0;
    while i < offsets.len()
        invariant
            i <= offsets.len(),
            number == label_number(label@),
            offsets@.map_values(|d: i32| d as int) == neighbour_offsets(
                truncated_rem(number as int, 3),
                placement,
            ),
            wanted == neighbour_offsets(truncated_rem(number as int, 3), placement).map_values(
                |d: int| sanitized(number + d),
            ),
            cell_texts(cells@) == seq![label@] + wanted.take(i as int),
        decreases offsets.len() - i,
    {
        let name = sanitize_neighbour(number, offsets[i]);
        proof {
            let as_ints = offsets@.map_values(|d: i32| d as int);
            assert(as_ints[i as int] == offsets[i as int] as int);
            assert(wanted[i as int] == name@);
            assert(cell_texts(cells@.push(name)) =~= cell_texts(cells@).push(name@));
            assert(wanted.take(i + 1) =~= wanted.take(i as int).push(name@));
        }
        cells.push(name);
        i += 1;
    }
    assert(wanted.take(offsets.len() as int) =~= wanted);
    cells
}

/// Names the cells that the range `label` stands for.
fn named(label: &str) -> (cells: Vec<String>)
    ensures
        cell_texts(cells@) == named_cells(label@),
{
    if same_text(label, "3rd") {
        range(1, 37, 3)
    } else if same_text(label, "2nd") {
        range(2, 37, 3)
    } else if same_text(label, "1st") {
        range(3, 37, 3)
    } else if same_text(label, "1-12") {
        range(1, 13, 1)
    } else if same_text(label, "13-24") {
        range(13, 25, 1)
    } else if same_text(label, "25-36") {
        range(25, 37, 1)
    } else if same_text(label, "1-18") {
        range(1, 19, 1)
    } else if same_text(label, "19-36") {
        range(19, 37, 1)
    } else if same_text(label, "even") {
        range(2, 37, 2)
    } else if same_text(label, "odd") {
        range(1, 37, 2)
    } else if same_text(label, "red") {
        colour_range(true)
    } else if same_text(label, "black") {
        colour_range(false)
    } else {
        let cells: Vec<String> = Vec::new();
        assert(cell_texts(cells@) =~= Seq::<Seq<char>>::empty());
        cells
    }
}

/// Lists what `bet` touches, where `numeric` tells whether its label
/// consists of number characters only.
fn touched(bet: &Bet, numeric: bool) -> (names: Vec<String>)
    ensures
        cell_texts(names@) == touched_names(bet@, numeric),
{
    if same_text(bet.label.as_str(), "0") {
        let mut names: Vec<String> = Vec::new();
        names.push(bet.label.clone());
        if bet.placement == Placement::Right {
            let y: i32 = boxes_of(bet.local_position.1) + 1;
            names.push(decimal_string(y as i64));
        }
        assert(cell_texts(names@) =~= touched_names(bet@, numeric));
        names
    } else if numeric {
        numbered(&bet.label, bet.placement)
    } else {
        named(bet.label.as_str())
    }
}

/// The number of the board cell that `name` names, if it names one.
pub fn cell_number(name: &str) -> (number: Option<u32>)
    ensures
        match number {
            Some(k) => k <= 36 && name@ == decimal(k as int),
            None => !is_cell_name(name@),
        },
{
    let mut k: u32 = 0;
    while k <= 36
        invariant
            k <= 37,
            forall|j: int| 0 <= j < k ==> name@ != #[trigger] decimal(j),
        decreases 37 - k,
    {
        let text = decimal_string(k as i64);
        if same_text(text.as_str(), name) {
            return Some(k);
        }
        k += 1;
    }
    None
}

/// Whether `name` is among `cells`.
pub fn holds(cells: &Vec<String>, name: &str) -> (found: bool)
    ensures
        found == cell_texts(cells@).contains(name@),
{
    let mut i: usize = 0;
    while i < cells.len()
        invariant
            i <= cells.len(),
            !cell_texts(cells@).take(i as int).contains(name@),
        decreases cells.len() - i,
    {
        if same_text(cells[i].as_str(), name) {
            assert(cell_texts(cells@)[i as int] == name@);
            return true;
        }
        proof {
            lemma_take_contains(cell_texts(cells@), i as int, name@);
        }
        i += 1;
    }
    assert(cell_texts(cells@).take(cells.len() as int) =~= cell_texts(cells@));
    false
}

/// Keeps the cells of the board among `names`, each once.
fn board(names: Vec<String>) -> (cells: Vec<String>)
    ensures
        cell_texts(cells@) == board_cells(cell_texts(names@)),
{
    let mut cells: Vec<String> = Vec::new();
    let mut i: usize = 0;
    assert(cell_texts(names@).take(0) =~= Seq::<Seq<char>>::empty());
    while i < names.len()
        invariant
            i <= names.len(),
            cell_texts(cells@) == board_cells(cell_texts(names@).take(i as int)),
        decreases names.len() - i,
    {
        let name = &names[i];
        let on_board = cell_number(name.as_str()).is_some();
        let listed = holds(&cells, name.as_str());
        proof {
            let all = cell_texts(names@);
            let longer = all.take(i + 1);
            assert(longer.drop_last() =~= all.take(i as int));
            assert(longer.last() == name@);
            assert(cell_texts(cells@.push(*name)) =~= cell_texts(cells@).push(name@));
        }
        if on_board && !listed {
            cells.push(name.clone());
        }
        i += 1;
    }
    assert(cell_texts(names@).take(names.len() as int) =~= cell_texts(names@));
    cells
}

/// Names the board cells that `bet` covers, each once, where `numeric` tells
/// whether its label consists of number characters only.
pub fn cells_for(bet: &Bet, numeric: bool) -> (cells: Vec<String>)
    ensures
        cell_texts(cells@) == covered_cells(bet@, numeric),
        cell_texts(cells@).no_duplicates(),
        forall|i: int| 0 <= i < cells@.len() ==> is_cell_name(#[trigger] cell_texts(cells@)[i]),
{
    let cells = board(touched(bet, numeric));
    proof {
        lemma_board_cells(touched_names(bet@, numeric));
    }
    cells
}

/// Names the board cells that `bet` covers: each cell once, and nothing that
/// is no cell of the board.
pub fn get_affected_by_bet(bet: &Bet) -> (cells: Vec<String>)
    ensures
        cell_texts(cells@) == bet_cells(bet@),
        cell_texts(cells@).no_duplicates(),
        forall|i: int| 0 <= i < cells@.len() ==> is_cell_name(#[trigger] cell_texts(cells@)[i]),
{
    let numeric = is_all_numeric(bet.label.as_str());
    cells_for(bet, numeric)
}

/// What one unit staked on `cells` cells returns when one of them wins.
pub fn multiplier_for(cells: usize) -> (m: i32)
    ensures
        m == multiplier(cells as nat),
{
    if cells == 1 {
        35
    } else if cells == 2 {
        17
    } else if cells == 3 {
        11
    } else if cells == 4 {
        8
    } else if cells == 6 {
        5
    } else if cells == 12 {
        2
    } else if cells == 18 {
        1
    } else {
        0
    }
}

/// What a wager of `amount` on `cells` pays when `lucky_number` comes up:
/// the amount times the multiplier of the number of cells where one of them
/// is the winning number, and nothing otherwise.
pub fn payout_for(cells: &Vec<String>, amount: i32, lucky_number: u32) -> (paid: i64)
    ensures
        paid == payout(cell_texts(cells@), amount as int, lucky_number as int),
{
    let winner = decimal_string(lucky_number as i64);
    let hit = holds(cells, winner.as_str());
    if hit {
        let m = multiplier_for(cells.len());
        assert(0 <= m <= 35);
        assert(-35 * 0x8000_0000 <= m * amount <= 35 * 0x8000_0000) by (nonlinear_arith)
            requires
                0 <= m <= 35,
                -0x8000_0000 <= amount < 0x8000_0000,
        ;
        (m as i64) * (amount as i64)
    } else {
        0
    }
}

/// Judges one player's wagers against the winning number.
pub fn judge_player(bets: &Vec<Bet>, lucky_number: u32) -> (judgement: Judgement)
    ensures
        judgement.winning_amount == winning_amount(bet_views(bets@), lucky_number as int),
        judgement.bet_amount == total_wagered(bet_views(bets@)),
{
    let mut won: i128 = 0;
    let mut staked: i128 = 0;
    let mut i: usize = 0;
    while i < bets.len()
        invariant
            i <= bets.len(),
            won == winning_amount(bet_views(bets@).take(i as int), lucky_number as int),
            staked == total_wagered(bet_views(bets@).take(i as int)),
            -i * 35 * 0x8000_0000 <= won <= i * 35 * 0x8000_0000,
            -i * 0x8000_0000 <= staked <= i * 0x8000_0000,
        decreases bets.len() - i,
    {
        let bet = &bets[i];
        let cells = get_affected_by_bet(bet);
        let paid = payout_for(&cells, bet.amount, lucky_number);
        proof {
            let views = bet_views(bets@);
            let longer = views.take(i + 1);
            assert(longer.drop_last() =~= views.take(i as int));
            assert(longer.last() == bet@);
            assert(-35 * 0x8000_0000 <= paid <= 35 * 0x8000_0000) by {
                let m = multiplier(cells@.len());
                assert(cell_texts(cells@).len() == cells@.len());
                assert(-35 * 0x8000_0000 <= m * bet.amount <= 35 * 0x8000_0000)
                    by (nonlinear_arith)
                    requires
                        0 <= m <= 35,
                        -0x8000_0000 <= bet.amount < 0x8000_0000,
                ;
            }
        }
        won = won + paid as i128;
        staked = staked + bet.amount as i128;
        i += 1;
    }
    assert(bet_views(bets@).take(bets.len() as int) =~= bet_views(bets@));
    Judgement { winning_amount: won, bet_amount: staked }
}

} // verus!

//! One player's seat at a table: the bet ledger and the balance.

use vstd::prelude::*;
use vstd::string::StringExecFns;
use crate::bets::{all_wf, bet_views, Bet, BetView};
use crate::judge::{bet_cells, judge_player, multiplier, payout, total_wagered, winning_amount};
use crate::messages::{error_message, ResponseMessages, ResponseView};

verus! {

/// What a player who joins for the first time has to play with.
pub const DEFAULT_BALANCE: i32 = 2500;

/// A player's seat. `channel_open` tells whether the player's outbound
/// channel still has a reader; a player whose channel is closed is offline
/// and keeps bets and balance for a later return.
#[derive(Debug)]
pub struct Player {
    pub name: String,
    pub bets: Vec<Bet>,
    pub balance: i32,
    pub channel_open: bool,
}

/// The mathematical content of a [`Player`].
pub struct PlayerView {
    pub name: Seq<char>,
    pub bets: Seq<BetView>,
    pub balance: int,
    pub channel_open: bool,
}

/// The text of the answer to a player whose spin cannot be settled because
/// the new balance is beyond what 32 bits hold.
pub open spec fn out_of_range() -> Seq<char> {
    "Balance out of range"@
}

impl PlayerView {
    /// The sum of the player's wagers.
    pub open spec fn total_bet(self) -> int {
        total_wagered(self.bets)
    }

    /// Every wager stakes a positive amount, and a player who has wagers on
    /// the table can cover them.
    pub open spec fn wf(self) -> bool {
        &&& all_wf(self.bets)
        &&& self.bets.len() == 0 || self.total_bet() <= self.balance
    }

    /// A seat as a first join creates it.
    pub open spec fn fresh(name: Seq<char>) -> PlayerView {
        PlayerView { name, bets: Seq::empty(), balance: DEFAULT_BALANCE as int, channel_open: true }
    }

    /// The balance after a spin: what the player won beyond the stake is
    /// taken from the balance, what was staked and not won is added to it.
    pub open spec fn balance_after(self, lucky_number: int) -> int {
        self.balance - (winning_amount(self.bets, lucky_number) - self.total_bet())
    }

    /// Whether a spin leaves the player unable to cover the wagers on the
    /// table, which clears them.
    pub open spec fn clears_bets(self, lucky_number: int) -> bool {
        self.balance_after(lucky_number) < self.total_bet()
    }

    /// Whether the balance after a spin can be held in 32 bits.
    pub open spec fn settles_within_limits(self, lucky_number: int) -> bool {
        i32::MIN <= self.balance_after(lucky_number) <= i32::MAX
    }

    /// What the player is told about a spin: the winning number, what was
    /// won, the new balance and whether the wagers were cleared. A player
    /// whose new balance 32 bits cannot hold is told that instead.
    pub open spec fn spin_result(self, lucky_number: int) -> ResponseView {
        if self.settles_within_limits(lucky_number) {
            ResponseView::Spin {
                lucky_number,
                winning_amount: winning_amount(self.bets, lucky_number),
                balance: self.balance_after(lucky_number),
                bets_cleared: self.clears_bets(lucky_number),
            }
        } else {
            ResponseView::Error { msg: out_of_range() }
        }
    }

    /// The seat after a spin: settled where 32 bits can hold the new
    /// balance, and as it was, with wagers and balance, where they cannot.
    pub open spec fn after_spin(self, lucky_number: int) -> PlayerView {
        if self.settles_within_limits(lucky_number) {
            self.settled(lucky_number)
        } else {
            self
        }
    }

    /// The seat with the spin settled: the balance is adjusted, and wagers
    /// that the new balance no longer covers are cleared.
    pub open spec fn settled(self, lucky_number: int) -> PlayerView {
        PlayerView {
            balance: self.balance_after(lucky_number),
            bets: if self.clears_bets(lucky_number) {
                Seq::empty()
            } else {
                self.bets
            },
            ..self
        }
    }
}

impl View for Player {
    type V = PlayerView;

    open spec fn view(&self) -> PlayerView {
        PlayerView {
            name: self.name@,
            bets: bet_views(self.bets@),
            balance: self.balance as int,
            channel_open: self.channel_open,
        }
    }
}

/// Positive wagers add up to at least one unit each.
pub proof fn lemma_total_wagered_positive(bets: Seq<BetView>)
    requires
        all_wf(bets),
    ensures
        total_wagered(bets) >= bets.len(),
    decreases bets.len(),
{
    if bets.len() > 0 {
        assert(bets.last().wf());
        assert forall|i: int| 0 <= i < bets.drop_last().len() implies (#[trigger] bets.drop_last()[i]).wf() by {
            assert(bets[i].wf());
        }
        lemma_total_wagered_positive(bets.drop_last());
    }
}

/// No spin pays positive wagers less than nothing or more than 35 times
/// their total.
pub proof fn lemma_winning_amount_bounds(bets: Seq<BetView>, lucky_number: int)
    requires
        all_wf(bets),
    ensures
        0 <= winning_amount(bets, lucky_number) <= 35 * total_wagered(bets),
    decreases bets.len(),
{
    if bets.len() > 0 {
        let last = bets.last();
        assert(last.wf());
        assert forall|i: int| 0 <= i < bets.drop_last().len() implies (#[trigger] bets.drop_last()[i]).wf() by {
            assert(bets[i].wf());
        }
        lemma_winning_amount_bounds(bets.drop_last(), lucky_number);
        let m = multiplier(bet_cells(last).len());
        assert(0 <= m * last.amount <= 35 * last.amount) by (nonlinear_arith)
            requires
                0 <= m <= 35,
                last.amount > 0,
        ;
        assert(0 <= payout(bet_cells(last), last.amount, lucky_number) <= 35 * last.amount);
    }
}

impl Player {
    /// A seat with the default balance and an open channel.
    pub fn new(name: &str, bets: Vec<Bet>) -> (player: Player)
        requires
            all_wf(bet_views(bets@)),
            bets@.len() == 0 || total_wagered(bet_views(bets@)) <= DEFAULT_BALANCE,
        ensures
            player@ == (PlayerView {
                name: name@,
                bets: bet_views(bets@),
                balance: DEFAULT_BALANCE as int,
                channel_open: true,
            }),
            player@.wf(),
    {
        Player { name: String::from_str(name), bets, balance: DEFAULT_BALANCE, channel_open: true }
    }

    /// The sum of the player's wagers.
    pub fn total_bet(&self) -> (total: i32)
        requires
            self@.wf(),
        ensures
            total == self@.total_bet(),
    {
        let mut total: i128 = 0;
        let mut i: usize = 0;
        while i < self.bets.len()
            invariant
                i <= self.bets.len(),
                total == total_wagered(bet_views(self.bets@).take(i as int)),
                -i * 0x8000_0000 <= total <= i * 0x8000_0000,
            decreases self.bets.len() - i,
        {
            proof {
                let views = bet_views(self.bets@);
                let longer = views.take(i + 1);
                assert(longer.drop_last() =~= views.take(i as int));
                assert(longer.last() == self.bets@[i as int]@);
            }
            total = total + self.bets[i].amount as i128;
            i += 1;
        }
        proof {
            assert(bet_views(self.bets@).take(self.bets.len() as int) =~= bet_views(self.bets@));
            lemma_total_wagered_positive(self@.bets);
        }
        total as i32
    }

    /// Settles a spin on `lucky_number`: adjusts the balance, clears the
    /// wagers that the new balance no longer covers, and reports the result.
    /// Where 32 bits cannot hold the new balance, the seat stays as it is and
    /// the report says so.
    pub fn settle(&mut self, lucky_number: u32) -> (result: ResponseMessages)
        requires
            old(self)@.wf(),
        ensures
            final(self)@ == old(self)@.after_spin(lucky_number as int),
            final(self)@.wf(),
            result@ == old(self)@.spin_result(lucky_number as int),
    {
        let judgement = judge_player(&self.bets, lucky_number);
        proof {
            assert(self@.bets.len() == self.bets.len());
            lemma_judgement_within_limits(self@.bets, lucky_number as int);
            lemma_winning_amount_bounds(self@.bets, lucky_number as int);
            lemma_total_wagered_positive(self@.bets);
        }
        let balance: i128 = self.balance as i128 - (judgement.winning_amount
            - judgement.bet_amount);
        if balance < -2147483648 || balance > 2147483647 {
            proof {
                reveal_strlit("Balance out of range");
            }
            return error_message("Balance out of range");
        }
        let bets_cleared = balance < judgement.bet_amount;
        self.balance = balance as i32;
        if bets_cleared {
            self.bets = Vec::new();
            assert(self@.bets =~= Seq::<BetView>::empty());
        }
        ResponseMessages::Spin {
            lucky_number,
            winning_amount: judgement.winning_amount as i64,
            balance: self.balance,
            bets_cleared,
        }
    }
}

/// The totals of a list of wagers stay far inside 128 bits.
pub proof fn lemma_judgement_within_limits(bets: Seq<BetView>, lucky_number: int)
    requires
        forall|i: int| 0 <= i < bets.len() ==> i32::MIN <= (#[trigger] bets[i]).amount <= i32::MAX,
        bets.len() <= usize::MAX,
    ensures
        -bets.len() * 0x8000_0000 <= total_wagered(bets) <= bets.len() * 0x8000_0000,
        -bets.len() * 35 * 0x8000_0000 <= winning_amount(bets, lucky_number) <= bets.len() * 35
            * 0x8000_0000,
    decreases bets.len(),
{
    if bets.len() > 0 {
        let last = bets.last();
        assert(i32::MIN <= last.amount <= i32::MAX);
        assert forall|i: int| 0 <= i < bets.drop_last().len() implies i32::MIN <= (
        #[trigger] bets.drop_last()[i]).amount <= i32::MAX by {
            assert(bets.drop_last()[i] == bets[i]);
        }
        lemma_judgement_within_limits(bets.drop_last(), lucky_number);
        let m = multiplier(bet_cells(last).len());
        assert(-35 * 0x8000_0000 <= m * last.amount <= 35 * 0x8000_0000) by (nonlinear_arith)
            requires
                0 <= m <= 35,
                -0x8000_0000 <= last.amount < 0x8000_0000,
        ;
    }
}

} // verus!

//! Wagers as they lie on the table.

use vstd::prelude::*;

verus! {

/// Where on a board cell a chip was put down.
#[derive(Clone, Copy, Debug, PartialEq, Eq, Structural)]
pub enum Placement {
    TopLeft,
    TopRight,
    BottomLeft,
    BottomRight,
    Left,
    Right,
    Top,
    Bottom,
    Center,
}

/// One wager: a chip of `amount` put on the cell `label` at `placement`.
/// `local_position` is where inside the cell the chip lies; it tells the
/// neighbours of the zero cell apart.
#[derive(Debug)]
pub struct Bet {
    pub label: String,
    pub placement: Placement,
    pub local_position: (i32, i32),
    pub amount: i32,
}

/// The mathematical content of a [`Bet`].
pub struct BetView {
    pub label: Seq<char>,
    pub placement: Placement,
    pub local_position: (int, int),
    pub amount: int,
}

impl BetView {
    /// A wager stakes a positive amount.
    pub open spec fn wf(self) -> bool {
        self.amount > 0
    }
}

impl View for Bet {
    type V = BetView;

    open spec fn view(&self) -> BetView {
        BetView {
            label: self.label@,
            placement: self.placement,
            local_position: (self.local_position.0 as int, self.local_position.1 as int),
            amount: self.amount as int,
        }
    }
}

/// The contents of a list of bets, in order.
pub open spec fn bet_views(bets: Seq<Bet>) -> Seq<BetView> {
    bets.map_values(|b: Bet| b@)
}

/// Whether every wager of the list stakes a positive amount.
pub open spec fn all_wf(bets: Seq<BetView>) -> bool {
    forall|i: int| 0 <= i < bets.len() ==> (#[trigger] bets[i]).wf()
}

impl Bet {
    /// A wager of `amount` on `label`.
    pub fn new(label: String, placement: Placement, local_position: (i32, i32), amount: i32) -> (bet:
        Bet)
        requires
            amount > 0,
        ensures
            bet@ == (BetView {
                label: label@,
                placement,
                local_position: (local_position.0 as int, local_position.1 as int),
                amount: amount as int,
            }),
            bet@.wf(),
    {
        Bet { label, placement, local_position, amount }
    }
}

} // verus!

//! What holds of a table at all times, and why: every step that a table can
//! take keeps it.

use vstd::prelude::*;
use crate::bets::BetView;
use crate::coordinator::{resolves, CoordinatorEvent};
use crate::identity::PlayerId;
use crate::messages::ResponseView;
use crate::round::{lemma_requests_bounded, lemma_resolved_is_wf};
use crate::table::TableView;

verus! {

/// One step of a table.
pub enum TableStep {
    /// A player joins or comes back.
    Join { id: PlayerId, name: Seq<char> },
    /// A player's outbound channel is seen open or closed.
    ChannelSeen { id: PlayerId, open: bool },
    /// A player tries to add a wager.
    AddBet { id: PlayerId, bet: BetView },
    /// A player asks to clear the wagers.
    ClearBets { id: PlayerId },
    /// A player calls for a spin.
    RequestSpin { id: PlayerId },
    /// The coordinator takes an event; a resolution draws `lucky_number`.
    Coordinate { event: CoordinatorEvent, lucky_number: int },
}

impl TableView {
    /// The table after `step`.
    pub open spec fn after_step(self, step: TableStep) -> TableView {
        match step {
            TableStep::Join { id, name } => self.joined(id, name),
            TableStep::ChannelSeen { id, open } => self.with_channel(id, open),
            TableStep::AddBet { id, bet } => self.after_add_bet(id, bet),
            TableStep::ClearBets { id } => self.after_clear_bets(id),
            TableStep::RequestSpin { id } => self.after_request_spin(id),
            TableStep::Coordinate { event, lucky_number } => self.after_event(event, lucky_number),
        }
    }

    /// Whether `step` is one that keeps the callers for a spin reachable:
    /// the channel that closes is not that of a player who has called, and
    /// the player who calls is reachable.
    pub open spec fn keeps_callers_reachable(self, step: TableStep) -> bool {
        match step {
            TableStep::ChannelSeen { id, open } => open || !self.spin_requests.contains(id),
            TableStep::RequestSpin { id } => self.open_players().contains(id),
            _ => true,
        }
    }
}

/// Every step leaves a well-formed table well formed. In particular only
/// seated players ever have a call for a spin outstanding.
pub proof fn lemma_step_keeps_wf(table: TableView, step: TableStep)
    requires
        table.wf(),
    ensures
        table.after_step(step).wf(),
        table.after_step(step).spin_requests.subset_of(table.after_step(step).players.dom()),
{
    let after = table.after_step(step);
    match step {
        TableStep::Join { id, name } => {
            assert forall|other: PlayerId| after.players.contains_key(other) implies (
            #[trigger] after.players[other]).wf() by {
                if table.players.contains_key(other) {
                    assert(table.players[other].wf());
                }
            }
        },
        TableStep::ChannelSeen { id, open } => {
            assert forall|other: PlayerId| after.players.contains_key(other) implies (
            #[trigger] after.players[other]).wf() by {
                assert(table.players[other].wf());
            }
        },
        TableStep::AddBet { id, bet } => {
            assert forall|other: PlayerId| after.players.contains_key(other) implies (
            #[trigger] after.players[other]).wf() by {
                assert(table.players[other].wf());
                if other == id && table.accepts_bet(id, bet.amount) {
                    let before = table.players[id].bets;
                    let longer = before.push(bet);
                    assert(longer.drop_last() =~= before);
                    assert forall|i: int| 0 <= i < longer.len() implies (
                    #[trigger] longer[i]).wf() by {
                        if i < before.len() {
                            assert(before[i].wf());
                        }
                    }
                }
            }
        },
        TableStep::ClearBets { id } => {
            assert forall|other: PlayerId| after.players.contains_key(other) implies (
            #[trigger] after.players[other]).wf() by {
                assert(table.players[other].wf());
            }
        },
        TableStep::RequestSpin { id } => {
            assert forall|other: PlayerId| after.players.contains_key(other) implies (
            #[trigger] after.players[other]).wf() by {
                assert(table.players[other].wf());
            }
        },
        TableStep::Coordinate { event, lucky_number } => {
            if resolves(table.armed_since, event) {
                lemma_resolved_is_wf(table, lucky_number);
                assert(after.players == table.resolved(lucky_number).players);
            } else {
                assert forall|other: PlayerId| after.players.contains_key(other) implies (
                #[trigger] after.players[other]).wf() by {
                    assert(table.players[other].wf());
                }
            }
        },
    }
}

/// At all times the calls for a spin are calls of seated players, and there
/// are no more of them than players with an open channel.
///
/// This holds of an empty table, and every step keeps it, with one
/// exception: a player who has called for a spin and then goes offline is
/// still counted as a caller until the round is resolved. The steps that
/// keep it are those of [`TableView::keeps_callers_reachable`].
pub proof fn lemma_step_keeps_requests_bounded(table: TableView, step: TableStep)
    requires
        table.wf(),
        table.requesters_connected(),
        table.keeps_callers_reachable(step),
    ensures
        table.after_step(step).wf(),
        table.after_step(step).requesters_connected(),
        table.after_step(step).spin_requests.subset_of(table.after_step(step).players.dom()),
        table.after_step(step).spin_requests.len() <= table.after_step(step).open_players().len(),
{
    lemma_step_keeps_wf(table, step);
    let after = table.after_step(step);
    match step {
        TableStep::Coordinate { event, lucky_number } => {
            if resolves(table.armed_since, event) {
                assert(after.spin_requests =~= Set::<PlayerId>::empty());
            } else {
                assert(after.open_players() =~= table.open_players());
            }
        },
        _ => {},
    }
    assert(after.requesters_connected());
    lemma_requests_bounded(after);
}

/// Only the resolution of a round moves a balance: every other step leaves
/// the balance of every seated player as it was.
pub proof fn lemma_only_resolution_moves_balances(table: TableView, step: TableStep, id: PlayerId)
    requires
        table.players.contains_key(id),
        !(step matches TableStep::Coordinate { event, lucky_number } && resolves(
            table.armed_since,
            event,
        )),
    ensures
        table.after_step(step).players.contains_key(id),
        table.after_step(step).players[id].balance == table.players[id].balance,
{
}

/// Wagers are never edited: after any step a seated player's wagers are
/// what they were, or what they were with one wager added at the end, or
/// none at all.
pub proof fn lemma_bets_change_as_a_batch(table: TableView, step: TableStep, id: PlayerId)
    requires
        table.players.contains_key(id),
    ensures
        table.after_step(step).players.contains_key(id),
        ({
            let before = table.players[id].bets;
            let after = table.after_step(step).players[id].bets;
            ||| after == before
            ||| after.len() == 0
            ||| step matches TableStep::AddBet { id: player, bet } && player == id && after
                == before.push(bet)
        }),
{
}

/// No step removes a seat: a player who is seated stays seated, with the
/// name given at the first join.
pub proof fn lemma_seats_stay(table: TableView, step: TableStep, id: PlayerId)
    requires
        table.players.contains_key(id),
    ensures
        table.after_step(step).players.contains_key(id),
        table.after_step(step).players[id].name == table.players[id].name,
{
}

/// Joining again is a reconnect: the seat keeps its wagers and its balance,
/// and its channel is open again.
pub proof fn lemma_rejoin_keeps_the_seat(table: TableView, id: PlayerId, name: Seq<char>)
    requires
        table.players.contains_key(id),
    ensures
        table.joined(id, name).players[id].bets == table.players[id].bets,
        table.joined(id, name).players[id].balance == table.players[id].balance,
        table.joined(id, name).players[id].channel_open,
        table.joined(id, name).players.dom() == table.players.dom(),
{
    assert(table.joined(id, name).players.dom() =~= table.players.dom());
}

/// An empty table has no calls for a spin.
pub proof fn lemma_empty_table_is_wf()
    ensures
        TableView::empty().wf(),
        TableView::empty().requesters_connected(),
{
}

/// A wager that the balance does not cover changes nothing: the table stays
/// as it is, the player is not told of an accepted bet, and the status that
/// the player reads afterwards shows the same bets and the same total as
/// before.
pub proof fn lemma_uncovered_bet_changes_nothing(table: TableView, id: PlayerId, bet: BetView)
    requires
        table.players.contains_key(id),
        table.players[id].total_bet() + bet.amount > table.players[id].balance,
    ensures
        table.after_add_bet(id, bet) == table,
        !(table.add_bet_reply(id, bet) matches Some(ResponseView::AddBet { .. })),
        table.after_add_bet(id, bet).status_reply(id) == table.status_reply(id),
        table.after_add_bet(id, bet).players[id].total_bet() == table.players[id].total_bet(),
{
}

/// A wager that stakes nothing or less is never put on the table: the table
/// stays as it is, and the player is not told of an accepted bet.
pub proof fn lemma_empty_wager_changes_nothing(table: TableView, id: PlayerId, bet: BetView)
    requires
        bet.amount <= 0,
    ensures
        table.after_add_bet(id, bet) == table,
        !(table.add_bet_reply(id, bet) matches Some(ResponseView::AddBet { .. })),
{
}

/// Adding a wager never lowers a player's total: every wager that is taken
/// stakes something.
pub proof fn lemma_add_bet_never_lowers_total(table: TableView, id: PlayerId, bet: BetView)
    requires
        table.players.contains_key(id),
    ensures
        table.after_add_bet(id, bet).players[id].total_bet() >= table.players[id].total_bet(),
        table.after_add_bet(id, bet).players[id].balance == table.players[id].balance,
{
    if table.accepts_bet(id, bet.amount) {
        lemma_accepted_bet_is_covered(table, id, bet);
    }
}

/// After a wager was accepted the player's wagers are covered by the
/// balance, which the wager did not change.
pub proof fn lemma_accepted_bet_is_covered(table: TableView, id: PlayerId, bet: BetView)
    requires
        table.accepts_bet(id, bet.amount),
    ensures
        table.after_add_bet(id, bet).players[id].balance == table.players[id].balance,
        table.after_add_bet(id, bet).players[id].total_bet() == table.players[id].total_bet()
            + bet.amount,
        table.after_add_bet(id, bet).players[id].total_bet() <= table.after_add_bet(
            id,
            bet,
        ).players[id].balance,
{
    let before = table.players[id].bets;
    assert(before.push(bet).drop_last() =~= before);
}

} // verus!

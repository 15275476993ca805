//! Rounds: calling for a spin, and resolving the round for every player.

use vstd::prelude::*;
use crate::clock::Timestamp;
use crate::coordinator::{
    action_on, next_state, resolves, CoordinatorAction, CoordinatorEvent, SpinTimerMessages,
};
use crate::identity::PlayerId;
use crate::messages::{error_message, ResponseMessages, ResponseView};
use crate::seqs::{
    lemma_not_in_earlier, lemma_push_contains, lemma_push_keeps_distinct, lemma_take_contains,
};
use crate::session::PlayerView;
use crate::table::{player_views, Table, TableError, TableView};
use crate::wheel::{is_pocket, spin};

verus! {

broadcast use vstd::std_specs::hash::group_hash_axioms;

/// What becomes of a call for a spin.
#[derive(Debug, PartialEq, Eq)]
pub enum SpinCall {
    /// The call is turned down; `reply` tells the player why.
    Refused { reply: ResponseMessages },
    /// The call stands; `message` is to be handed to the coordinator.
    Forwarded { message: SpinTimerMessages },
}

/// The mathematical content of a [`SpinCall`].
pub enum SpinCallView {
    Refused { reply: ResponseView },
    Forwarded { message: SpinTimerMessages },
}

impl View for SpinCall {
    type V = SpinCallView;

    open spec fn view(&self) -> SpinCallView {
        match *self {
            SpinCall::Refused { reply } => SpinCallView::Refused { reply: reply@ },
            SpinCall::Forwarded { message } => SpinCallView::Forwarded { message },
        }
    }
}

/// A message for one player.
#[derive(Debug, PartialEq, Eq)]
pub struct Delivery {
    pub to: PlayerId,
    pub message: ResponseMessages,
}

/// A message for many players.
#[derive(Debug, PartialEq, Eq)]
pub struct Broadcast {
    pub recipients: Vec<PlayerId>,
    pub message: ResponseMessages,
}

/// What the coordinator did on an event, and what is to be sent for it.
#[derive(Debug, PartialEq, Eq)]
pub struct Reaction {
    pub action: CoordinatorAction,
    /// The start of the countdown, for every reachable player.
    pub announcement: Option<Broadcast>,
    /// The result of the spin, for each reachable player their own.
    pub deliveries: Vec<Delivery>,
}

/// The players that a list of deliveries goes to, in order.
pub open spec fn delivery_targets(deliveries: Seq<Delivery>) -> Seq<PlayerId> {
    deliveries.map_values(|d: Delivery| d.to)
}

impl TableView {
    /// Whether one more call for a spin makes every reachable player have
    /// called.
    pub open spec fn spin_quorum(self) -> bool {
        self.open_players().len() == self.spin_requests.len() + 1
    }

    /// Whether a call for a spin by `id` is noted and waits for the others:
    /// the player is seated, has wagers, has not called before, and others
    /// are still to follow.
    pub open spec fn queues_spin_request(self, id: PlayerId) -> bool {
        &&& self.players.contains_key(id)
        &&& !self.spin_requests.contains(id)
        &&& self.players[id].bets.len() > 0
        &&& !self.spin_quorum()
    }

    /// The table after `id` called for a spin.
    pub open spec fn after_request_spin(self, id: PlayerId) -> TableView {
        if self.queues_spin_request(id) {
            TableView { spin_requests: self.spin_requests.insert(id), ..self }
        } else {
            self
        }
    }

    /// What becomes of a call for a spin by the seated player `id` at time
    /// `now`.
    pub open spec fn spin_call(self, id: PlayerId, now: Timestamp) -> SpinCallView {
        if self.spin_requests.contains(id) {
            SpinCallView::Refused {
                reply: ResponseView::Error { msg: "No table has been joined"@ },
            }
        } else if self.players[id].bets.len() == 0 {
            SpinCallView::Refused { reply: ResponseView::Error { msg: "No bets added"@ } }
        } else if self.spin_quorum() {
            SpinCallView::Forwarded { message: SpinTimerMessages::SudoRequest }
        } else {
            SpinCallView::Forwarded { message: SpinTimerMessages::NewRequest { timestamp: now } }
        }
    }

    /// The seat of `id` after a spin on `lucky_number`: what the spin makes
    /// of it for a reachable player, untouched for one who is offline.
    pub open spec fn seat_after_spin(self, id: PlayerId, lucky_number: int) -> PlayerView {
        if self.players[id].channel_open {
            self.players[id].after_spin(lucky_number)
        } else {
            self.players[id]
        }
    }

    /// The table after the round was resolved on `lucky_number`: every
    /// reachable player is settled, but for those whose new balance 32 bits
    /// cannot hold, and no call for a spin is left.
    pub open spec fn resolved(self, lucky_number: int) -> TableView {
        TableView {
            players: Map::new(
                |id: PlayerId| self.players.contains_key(id),
                |id: PlayerId| self.seat_after_spin(id, lucky_number),
            ),
            spin_requests: Set::empty(),
            ..self
        }
    }

    /// Whether `deliveries` tells each reachable player, once, the own
    /// result of a spin on `lucky_number`.
    pub open spec fn reports_spin(self, deliveries: Seq<Delivery>, lucky_number: int) -> bool {
        &&& delivery_targets(deliveries).no_duplicates()
        &&& delivery_targets(deliveries).to_set() == self.open_players()
        &&& forall|i: int|
            0 <= i < deliveries.len() ==> (#[trigger] deliveries[i]).message@
                == self.players[deliveries[i].to].spin_result(lucky_number)
    }

    /// The table after its coordinator took `event`, where a resolution
    /// draws `lucky_number`.
    pub open spec fn after_event(self, event: CoordinatorEvent, lucky_number: int) -> TableView {
        let armed_since = next_state(self.armed_since, event);
        if resolves(self.armed_since, event) {
            TableView { armed_since, ..self.resolved(lucky_number) }
        } else {
            TableView { armed_since, ..self }
        }
    }

    /// Whether `reaction` is what the coordinator's handling of `event`
    /// gives out.
    pub open spec fn reacts(
        self,
        event: CoordinatorEvent,
        lucky_number: int,
        reaction: Reaction,
    ) -> bool {
        &&& reaction.action == action_on(self.armed_since, event)
        &&& match reaction.action {
            CoordinatorAction::Nothing => {
                &&& reaction.announcement is None
                &&& reaction.deliveries@.len() == 0
            },
            CoordinatorAction::BeginTimer { start } => {
                &&& reaction.announcement matches Some(notice)
                &&& notice.message@ == (ResponseView::BeginSpinTimer { start: start as int })
                &&& self.reaches(notice.recipients@, Set::empty())
                &&& reaction.deliveries@.len() == 0
            },
            CoordinatorAction::Resolve { by_quorum } => {
                &&& reaction.announcement is None
                &&& self.reports_spin(reaction.deliveries@, lucky_number)
            },
        }
    }
}

/// While every player who called for a spin is reachable, the calls are
/// calls of seated players, and there are no more of them than reachable
/// players.
pub proof fn lemma_requests_bounded(table: TableView)
    requires
        table.wf(),
        table.requesters_connected(),
    ensures
        table.spin_requests.subset_of(table.players.dom()),
        table.open_players().finite(),
        table.spin_requests.len() <= table.open_players().len(),
{
    table.players.dom().lemma_len_filter(|id: PlayerId| table.players[id].channel_open);
    vstd::set_lib::lemma_len_subset(table.spin_requests, table.open_players());
}

/// A resolved table is well formed and has no call for a spin left,
/// whatever made the round end.
pub proof fn lemma_resolved_is_wf(table: TableView, lucky_number: int)
    requires
        table.wf(),
    ensures
        table.resolved(lucky_number).wf(),
        table.resolved(lucky_number).spin_requests == Set::<PlayerId>::empty(),
        table.resolved(lucky_number).requesters_connected(),
        table.resolved(lucky_number).players.dom() == table.players.dom(),
{
    let after = table.resolved(lucky_number);
    assert(after.players.dom() =~= table.players.dom());
    assert forall|id: PlayerId| after.players.contains_key(id) implies (
    #[trigger] after.players[id]).wf() by {
        assert(table.players[id].wf());
    }
}

/// Every event that ends a round, the forced resolution as well as the
/// countdown that runs out, leaves the table without calls for a spin and
/// the coordinator idle.
pub proof fn lemma_resolution_clears_requests(
    table: TableView,
    event: CoordinatorEvent,
    lucky_number: int,
)
    requires
        resolves(table.armed_since, event),
    ensures
        table.after_event(event, lucky_number).spin_requests == Set::<PlayerId>::empty(),
        table.after_event(event, lucky_number).armed_since is None,
{
}

impl Table {
    /// Takes a call for a spin by `player_id` at time `now`.
    ///
    /// A player who has called already, or has no wagers, is turned down.
    /// Where the call makes every reachable player have called, the round is
    /// to be resolved at once and the call is not noted. Otherwise it is
    /// noted and the coordinator hears of it.
    pub fn request_spin(&mut self, player_id: PlayerId, now: Timestamp) -> (outcome: Result<
        SpinCall,
        TableError,
    >)
        requires
            old(self).wf(),
        ensures
            final(self).wf(),
            old(self)@.requesters_connected() && old(self)@.open_players().contains(player_id)
                ==> final(self)@.requesters_connected(),
            match outcome {
                Ok(call) => {
                    &&& old(self)@.players.contains_key(player_id)
                    &&& final(self)@ == old(self)@.after_request_spin(player_id)
                    &&& call@ == old(self)@.spin_call(player_id, now)
                },
                Err(error) => {
                    &&& error == TableError::PlayerNotFound
                    &&& !old(self)@.players.contains_key(player_id)
                    &&& final(self)@ == old(self)@
                },
            },
    {
        if self.spin_requests.contains(&player_id) {
            return Ok(SpinCall::Refused { reply: error_message("No table has been joined") });
        }
        let has_bets = match self.players.get(&player_id) {
            None => {
                return Err(TableError::PlayerNotFound);
            },
            Some(player) => {
                assert(player@.bets.len() == player.bets@.len());
                player.bets.len() > 0
            },
        };
        if !has_bets {
            return Ok(SpinCall::Refused { reply: error_message("No bets added") });
        }
        let nobody: Vec<PlayerId> = Vec::new();
        let reachable = self.recipients(&nobody);
        proof {
            assert(nobody@.to_set() =~= Set::<PlayerId>::empty());
            assert(self@.open_players().difference(Set::<PlayerId>::empty())
                =~= self@.open_players());
            reachable@.unique_seq_to_set();
        }
        let open = reachable.len();
        let requests = self.spin_requests.len();
        if open > 0 && open - 1 == requests {
            Ok(SpinCall::Forwarded { message: SpinTimerMessages::SudoRequest })
        } else {
            self.spin_requests.insert(player_id);
            assert(self@.players =~= old(self)@.players);
            Ok(SpinCall::Forwarded { message: SpinTimerMessages::NewRequest { timestamp: now } })
        }
    }

    /// Resolves the round on `lucky_number`: settles every reachable player,
    /// tells each the own result, and drops all calls for a spin. A player
    /// whose new balance 32 bits cannot hold keeps wagers and balance and is
    /// told so; the round is resolved for the others all the same.
    pub fn resolve_round(&mut self, lucky_number: u32) -> (deliveries: Vec<Delivery>)
        requires
            old(self).wf(),
        ensures
            final(self)@ == old(self)@.resolved(lucky_number as int),
            final(self).wf(),
            final(self)@.requesters_connected(),
            old(self)@.reports_spin(deliveries@, lucky_number as int),
    {
        let keys = self.player_ids();
        let ghost before = self@;
        let ghost seats = self.players@;
        let mut deliveries: Vec<Delivery> = Vec::new();
        let mut i: usize = 0;
        while i < keys.len()
            invariant
                i <= keys.len(),
                before.wf(),
                before.players == player_views(seats),
                keys@.no_duplicates(),
                keys@.to_set() == seats.dom(),
                self.players@.dom() == seats.dom(),
                self.spin_requests == old(self).spin_requests,
                self.coordinator == old(self).coordinator,
                forall|id: PlayerId| #[trigger]
                    seats.contains_key(id) ==> (if keys@.take(i as int).contains(id) {
                        self.players@[id]@ == before.seat_after_spin(id, lucky_number as int)
                    } else {
                        self.players@[id] == seats[id]
                    }),
                delivery_targets(deliveries@).no_duplicates(),
                forall|id: PlayerId| #[trigger]
                    delivery_targets(deliveries@).contains(id) <==> keys@.take(i as int).contains(
                        id,
                    ) && before.players[id].channel_open,
                forall|k: int|
                    0 <= k < deliveries.len() ==> (#[trigger] deliveries[k]).message@
                        == before.players[deliveries[k].to].spin_result(lucky_number as int),
            decreases keys.len() - i,
        {
            let id = keys[i];
            let ghost sent = deliveries@;
            let ghost held = self.players@;
            proof {
                assert(keys@.to_set().contains(id)) by {
                    assert(keys@.contains(id));
                }
                lemma_not_in_earlier(keys@, i as int);
                assert(seats.contains_key(id));
                assert(self.players@[id] == seats[id]);
                assert(before.players[id] == seats[id]@);
                assert(before.players[id].wf());
            }
            match self.players.remove(&id) {
                Some(mut player) => {
                    if player.channel_open {
                        let message = player.settle(lucky_number);
                        proof {
                            lemma_push_keeps_distinct(delivery_targets(sent), id);
                        }
                        deliveries.push(Delivery { to: id, message });
                    }
                    self.players.insert(id, player);
                },
                None => {},
            }
            proof {
                let later = keys@.take(i + 1);
                assert(self.players@.dom() =~= seats.dom());
                assert forall|x: PlayerId| #[trigger] seats.contains_key(x) implies (if later.contains(
                    x,
                ) {
                    self.players@[x]@ == before.seat_after_spin(x, lucky_number as int)
                } else {
                    self.players@[x] == seats[x]
                }) by {
                    lemma_take_contains(keys@, i as int, x);
                    if x != id {
                        assert(self.players@[x] == held[x]);
                    }
                }
                if before.players[id].channel_open {
                    assert(delivery_targets(deliveries@) =~= delivery_targets(sent).push(id));
                } else {
                    assert(deliveries@ == sent);
                }
                assert forall|x: PlayerId| #[trigger]
                    delivery_targets(deliveries@).contains(x) <==> later.contains(x)
                        && before.players[x].channel_open by {
                    lemma_take_contains(keys@, i as int, x);
                    lemma_push_contains(delivery_targets(sent), id, x);
                    assert(delivery_targets(sent).contains(x) <==> keys@.take(i as int).contains(x)
                        && before.players[x].channel_open);
                }
                assert forall|k: int| 0 <= k < deliveries.len() implies (
                #[trigger] deliveries[k]).message@ == before.players[deliveries[k].to].spin_result(
                    lucky_number as int,
                ) by {
                    if k < sent.len() {
                        assert(deliveries[k] == sent[k]);
                    }
                }
            }
            i += 1;
        }
        self.spin_requests.clear();
        proof {
            assert(keys@.take(keys.len() as int) =~= keys@);
            let wanted = before.resolved(lucky_number as int);
            assert forall|id: PlayerId| seats.contains_key(id) implies keys@.contains(id) by {
                assert(keys@.to_set().contains(id));
            }
            assert(self@.players =~= wanted.players);
            assert(self@.spin_requests =~= wanted.spin_requests);
            lemma_resolved_is_wf(before, lucky_number as int);
            assert forall|x: PlayerId|
                delivery_targets(deliveries@).to_set().contains(x)
                    <==> before.open_players().contains(x) by {
                if before.open_players().contains(x) {
                    assert(keys@.to_set().contains(x));
                }
            }
            assert(delivery_targets(deliveries@).to_set() =~= before.open_players());
        }
        deliveries
    }

    /// Lets the table's coordinator take `event`.
    ///
    /// The first call for a spin starts the countdown and is announced to
    /// every reachable player. A forced resolution, or the countdown running
    /// out while armed, resolves the round on `lucky_number` and leaves the
    /// coordinator idle.
    pub fn coordinate(&mut self, event: CoordinatorEvent, lucky_number: u32) -> (reaction: Reaction)
        requires
            old(self).wf(),
        ensures
            final(self)@ == old(self)@.after_event(event, lucky_number as int),
            final(self).wf(),
            old(self)@.requesters_connected() ==> final(self)@.requesters_connected(),
            resolves(old(self)@.armed_since, event) ==> final(self)@.spin_requests
                == Set::<PlayerId>::empty(),
            old(self)@.reacts(event, lucky_number as int, reaction),
    {
        let action = self.coordinator.step(event);
        match action {
            CoordinatorAction::Nothing => {
                Reaction { action, announcement: None, deliveries: Vec::new() }
            },
            CoordinatorAction::BeginTimer { start } => {
                let nobody: Vec<PlayerId> = Vec::new();
                let recipients = self.recipients(&nobody);
                proof {
                    assert(nobody@.to_set() =~= Set::<PlayerId>::empty());
                    assert(self@.open_players() =~= old(self)@.open_players());
                }
                let notice = Broadcast {
                    recipients,
                    message: ResponseMessages::BeginSpinTimer { start },
                };
                Reaction { action, announcement: Some(notice), deliveries: Vec::new() }
            },
            CoordinatorAction::Resolve { by_quorum } => {
                let ghost armed = TableView { armed_since: None, ..old(self)@ };
                proof {
                    assert(self@ == armed);
                    assert(armed.open_players() =~= old(self)@.open_players());
                }
                let deliveries = self.resolve_round(lucky_number);
                proof {
                    assert(armed.resolved(lucky_number as int).players =~= old(self)@.resolved(
                        lucky_number as int,
                    ).players);
                }
                Reaction { action, announcement: None, deliveries }
            },
        }
    }

    /// Lets the table's coordinator take `event`, with a freshly drawn
    /// winning number at hand for the case that the event ends the round.
    pub fn spin_and_coordinate(&mut self, event: CoordinatorEvent) -> (reaction: Reaction)
        requires
            old(self).wf(),
        ensures
            final(self).wf(),
            old(self)@.requesters_connected() ==> final(self)@.requesters_connected(),
            resolves(old(self)@.armed_since, event) ==> final(self)@.spin_requests
                == Set::<PlayerId>::empty(),
            exists|lucky_number: u32|
                is_pocket(lucky_number as int) && final(self)@ == #[trigger] old(self)@.after_event(
                    event,
                    lucky_number as int,
                ) && old(self)@.reacts(event, lucky_number as int, reaction),
    {
        let lucky_number = spin();
        self.coordinate(event, lucky_number)
    }
}

} // verus!

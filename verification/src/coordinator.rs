//! The spin coordinator: the countdown that ends a round.

use vstd::prelude::*;
use crate::clock::Timestamp;

verus! {

/// How long a round stays open after the first call for a spin, in seconds.
pub const COUNTDOWN_SECONDS: u64 = 60;

/// The state of a table's coordinator: idle (`None`), or armed since the
/// time of the first call for a spin.
#[derive(Clone, Copy, Debug, PartialEq, Eq)]
pub struct SpinCoordinator {
    pub armed_since: Option<Timestamp>,
}

/// What request handling tells the coordinator.
#[derive(Clone, Copy, Debug, PartialEq, Eq)]
pub enum SpinTimerMessages {
    /// A player called for a spin at `timestamp` and others are still to
    /// follow.
    NewRequest { timestamp: Timestamp },
    /// Every reachable player has called for a spin: resolve the round now.
    SudoRequest,
}

/// What the coordinator reacts to.
#[derive(Clone, Copy, Debug, PartialEq, Eq)]
pub enum CoordinatorEvent {
    /// A message from request handling.
    Message(SpinTimerMessages),
    /// The countdown ran out.
    Tick,
}

/// What the coordinator decides to do.
#[derive(Clone, Copy, Debug, PartialEq, Eq)]
pub enum CoordinatorAction {
    /// Nothing to do.
    Nothing,
    /// Start the countdown and announce it to the table.
    BeginTimer { start: Timestamp },
    /// Resolve the round; `by_quorum` tells that the countdown is to be
    /// started afresh because the round ended early.
    Resolve { by_quorum: bool },
}

/// The coordinator's next state on `event`.
///
/// The first call for a spin arms the countdown; later calls leave it as it
/// is. A forced resolution and a countdown that runs out while armed both
/// end the round and leave the coordinator idle.
pub open spec fn next_state(armed_since: Option<Timestamp>, event: CoordinatorEvent) -> Option<
    Timestamp,
> {
    match event {
        CoordinatorEvent::Message(SpinTimerMessages::NewRequest { timestamp }) => {
            if armed_since is None {
                Some(timestamp)
            } else {
                armed_since
            }
        },
        CoordinatorEvent::Message(SpinTimerMessages::SudoRequest) => None,
        CoordinatorEvent::Tick => None,
    }
}

/// What the coordinator does on `event`.
pub open spec fn action_on(armed_since: Option<Timestamp>, event: CoordinatorEvent) ->
    CoordinatorAction {
    match event {
        CoordinatorEvent::Message(SpinTimerMessages::NewRequest { timestamp }) => {
            if armed_since is None {
                CoordinatorAction::BeginTimer { start: timestamp }
            } else {
                CoordinatorAction::Nothing
            }
        },
        CoordinatorEvent::Message(SpinTimerMessages::SudoRequest) => CoordinatorAction::Resolve {
            by_quorum: true,
        },
        CoordinatorEvent::Tick => {
            if armed_since is Some {
                CoordinatorAction::Resolve { by_quorum: false }
            } else {
                CoordinatorAction::Nothing
            }
        },
    }
}

/// Whether `event` ends the round.
pub open spec fn resolves(armed_since: Option<Timestamp>, event: CoordinatorEvent) -> bool {
    action_on(armed_since, event) is Resolve
}

/// The first call for a spin wins the clock: while the coordinator is armed,
/// a later call neither restarts nor extends the countdown.
pub proof fn lemma_first_request_wins(since: Timestamp, later: Timestamp)
    ensures
        next_state(
            Some(since),
            CoordinatorEvent::Message(SpinTimerMessages::NewRequest { timestamp: later }),
        ) == Some(since),
        action_on(
            Some(since),
            CoordinatorEvent::Message(SpinTimerMessages::NewRequest { timestamp: later }),
        ) == CoordinatorAction::Nothing,
{
}

/// Whatever ends a round, the forced resolution or the countdown running
/// out, leaves the coordinator idle; and an idle coordinator lets a
/// countdown that runs out pass.
pub proof fn lemma_resolution_leaves_idle(armed_since: Option<Timestamp>, event: CoordinatorEvent)
    ensures
        resolves(armed_since, event) ==> next_state(armed_since, event) is None,
        resolves(armed_since, CoordinatorEvent::Message(SpinTimerMessages::SudoRequest)),
        resolves(armed_since, CoordinatorEvent::Tick) <==> armed_since is Some,
{
}

impl SpinCoordinator {
    /// An idle coordinator.
    pub fn new() -> (coordinator: SpinCoordinator)
        ensures
            coordinator.armed_since is None,
    {
        SpinCoordinator { armed_since: None }
    }

    /// Takes one event: moves to the next state and says what is to be done.
    pub fn step(&mut self, event: CoordinatorEvent) -> (action: CoordinatorAction)
        ensures
            final(self).armed_since == next_state(old(self).armed_since, event),
            action == action_on(old(self).armed_since, event),
    {
        match event {
            CoordinatorEvent::Message(SpinTimerMessages::NewRequest { timestamp }) => {
                if self.armed_since.is_none() {
                    self.armed_since = Some(timestamp);
                    CoordinatorAction::BeginTimer { start: timestamp }
                } else {
                    CoordinatorAction::Nothing
                }
            },
            CoordinatorEvent::Message(SpinTimerMessages::SudoRequest) => {
                self.armed_since = None;
                CoordinatorAction::Resolve { by_quorum: true }
            },
            CoordinatorEvent::Tick => {
                if self.armed_since.is_some() {
                    self.armed_since = None;
                    CoordinatorAction::Resolve { by_quorum: false }
                } else {
                    CoordinatorAction::Nothing
                }
            },
        }
    }
}

} // verus!

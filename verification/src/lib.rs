//! A multiplayer roulette table, verified.
//!
//! Players join tables, place wagers against their balance and call for a
//! spin. A round is resolved when every reachable player has called, or when
//! the countdown that the first call started has run out. Resolution judges
//! each player's wagers against the winning number and settles the balance.
//!
//! The library is the state machine: it takes decoded requests and
//! coordinator events and says what changes and what is to be sent to whom.
//! Sockets, timers and tasks are the caller's.

pub mod bets;
pub mod broadcast;
pub mod clock;
pub mod coordinator;
pub mod identity;
pub mod invariants;
pub mod judge;
pub mod messages;
pub mod registry;
pub mod round;
pub mod router;
pub mod seqs;
pub mod session;
pub mod table;
pub mod text;
pub mod unicode;
pub mod upstream;
pub mod wheel;

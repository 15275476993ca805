//! The request router: from a decoded request of one connection to the
//! operation on the right table and seat.

use vstd::prelude::*;
use crate::bets::BetView;
use crate::broadcast::broadcast_response_message;
use crate::clock::Timestamp;
use crate::coordinator::SpinTimerMessages;
use crate::identity::{id_digest, id_hash, is_random_uuid, new_player_id, PlayerId};
use crate::messages::{error_message, reply_view, RequestMessages, ResponseMessages, ResponseView};
use crate::registry::{after_join, announces_join, Game, GameView, Joined, TableId};
use crate::round::{Broadcast, SpinCall, SpinCallView};
use crate::table::{TableError, TableView};

verus! {

broadcast use vstd::std_specs::hash::group_hash_axioms;

/// What a connection is bound to: nothing before its first join, then the
/// table and seat of its latest join.
#[derive(Debug, PartialEq, Eq)]
pub struct Connection {
    pub player_id: Option<PlayerId>,
    pub table_id: Option<TableId>,
}

/// The mathematical content of a [`Connection`].
pub struct ConnectionView {
    pub player_id: Option<PlayerId>,
    pub table_id: Option<Seq<char>>,
}

impl View for Connection {
    type V = ConnectionView;

    open spec fn view(&self) -> ConnectionView {
        ConnectionView {
            player_id: self.player_id,
            table_id: match self.table_id {
                Some(id) => Some(id@),
                None => None,
            },
        }
    }
}

impl ConnectionView {
    /// Whether the connection has joined a table.
    pub open spec fn bound(self) -> bool {
        self.player_id is Some && self.table_id is Some
    }
}

/// The mathematical content of a [`RequestMessages`].
pub enum RequestView {
    JoinTable { table_id: Seq<char>, player_id: Option<PlayerId>, name: Seq<char> },
    AddBet { bet: BetView },
    ClearBets,
    RequestSpin,
    GetStatus,
    ListPlayers,
}

impl View for RequestMessages {
    type V = RequestView;

    open spec fn view(&self) -> RequestView {
        match *self {
            RequestMessages::JoinTable { table_id, player_id, name } => RequestView::JoinTable {
                table_id: table_id@,
                player_id,
                name: name@,
            },
            RequestMessages::AddBet {
                label,
                placement,
                local_position,
                amount,
            } => RequestView::AddBet {
                bet: BetView {
                    label: label@,
                    placement,
                    local_position: (local_position.0 as int, local_position.1 as int),
                    amount: amount as int,
                },
            },
            RequestMessages::ClearBets => RequestView::ClearBets,
            RequestMessages::RequestSpin => RequestView::RequestSpin,
            RequestMessages::GetStatus => RequestView::GetStatus,
            RequestMessages::ListPlayers => RequestView::ListPlayers,
        }
    }
}

/// What handling a request gives out. The answer is to be sent before the
/// notice, so that a player who joins is told so before the others hear of
/// it.
#[derive(Debug, PartialEq, Eq)]
pub struct Handled {
    /// The answer for the connection that asked.
    pub reply: Option<ResponseMessages>,
    /// A notice for the other players of the table.
    pub notice: Option<Broadcast>,
    /// A message for the table's coordinator.
    pub message: Option<SpinTimerMessages>,
}

/// Why a request could not be served.
#[derive(Clone, Copy, Debug, PartialEq, Eq, Structural)]
pub enum HandleError {
    /// The connection is bound to a table that the registry does not hold.
    TableNotFound,
    /// The connection is bound to a player without a seat at its table.
    PlayerNotFound,
}

/// The text of the answer to a request that needs a joined table and has
/// none.
pub open spec fn not_joined() -> Seq<char> {
    "No table has been joined"@
}

/// The identifier that a join is made under: the one the player brings, or
/// the fresh one.
pub open spec fn joining_id(player_id: Option<PlayerId>, fresh_id: PlayerId) -> PlayerId {
    match player_id {
        Some(id) => id,
        None => fresh_id,
    }
}

/// Whether `fresh_id` can be the identifier drawn for `request`: for a join
/// without an identifier it is a random UUID.
pub open spec fn draws_fresh_id(request: RequestView, fresh_id: PlayerId) -> bool {
    request matches RequestView::JoinTable { player_id: None, .. } ==> is_random_uuid(fresh_id)
}

/// The table after the player `player_id` made `request`, which is none of
/// joining.
pub open spec fn table_after(table: TableView, player_id: PlayerId, request: RequestView) ->
    TableView {
    match request {
        RequestView::AddBet { bet } => table.after_add_bet(player_id, bet),
        RequestView::ClearBets => table.after_clear_bets(player_id),
        RequestView::RequestSpin => table.after_request_spin(player_id),
        _ => table,
    }
}

/// Whether serving `request` looks up the seat of the player who asks.
/// Listing the players does not.
pub open spec fn needs_seat(request: RequestView) -> bool {
    match request {
        RequestView::ListPlayers => false,
        RequestView::JoinTable { .. } => false,
        _ => true,
    }
}

/// The tables after `request` came in over `connection`.
pub open spec fn game_after(
    game: GameView,
    connection: ConnectionView,
    request: RequestView,
    fresh_id: PlayerId,
) -> GameView {
    match request {
        RequestView::JoinTable { table_id, player_id, name } => after_join(
            game,
            table_id,
            joining_id(player_id, fresh_id),
            name,
        ),
        _ => {
            if connection.bound() && game.contains_key(connection.table_id->0) {
                game.insert(
                    connection.table_id->0,
                    table_after(game[connection.table_id->0], connection.player_id->0, request),
                )
            } else {
                game
            }
        },
    }
}

/// What `connection` is bound to after `request`: a join binds it to the
/// joined table and seat, nothing else changes it.
pub open spec fn connection_after(
    connection: ConnectionView,
    request: RequestView,
    fresh_id: PlayerId,
) -> ConnectionView {
    match request {
        RequestView::JoinTable { table_id, player_id, name } => ConnectionView {
            player_id: Some(joining_id(player_id, fresh_id)),
            table_id: Some(table_id),
        },
        _ => connection,
    }
}

/// Whether `handled` carries only an answer, and that answer is `reply`.
pub open spec fn only_replies(handled: Handled, reply: ResponseView) -> bool {
    &&& reply_view(handled.reply) == Some(reply)
    &&& handled.notice is None
    &&& handled.message is None
}

/// Whether `handled` is what the seated player `player_id` of `table` gets
/// for `request`, which is none of joining, at time `now`.
pub open spec fn serves(
    table: TableView,
    player_id: PlayerId,
    request: RequestView,
    now: Timestamp,
    handled: Handled,
) -> bool {
    &&& handled.notice is None
    &&& match request {
        RequestView::GetStatus => {
            &&& reply_view(handled.reply) == Some(table.status_reply(player_id))
            &&& handled.message is None
        },
        RequestView::AddBet { bet } => {
            &&& reply_view(handled.reply) == table.add_bet_reply(player_id, bet)
            &&& handled.message is None
        },
        RequestView::ClearBets => {
            &&& reply_view(handled.reply) == Some(table.clear_bets_reply(player_id))
            &&& handled.message is None
        },
        RequestView::RequestSpin => {
            match table.spin_call(player_id, now) {
                SpinCallView::Refused { reply } => {
                    &&& reply_view(handled.reply) == Some(reply)
                    &&& handled.message is None
                },
                SpinCallView::Forwarded { message } => {
                    &&& handled.reply is None
                    &&& handled.message == Some(message)
                },
            }
        },
        RequestView::ListPlayers => {
            &&& handled.reply matches Some(reply)
            &&& table.answers_list_players(player_id, reply@)
            &&& handled.message is None
        },
        RequestView::JoinTable { .. } => false,
    }
}

/// Whether `outcome` is what `request` over `connection` gives out, where
/// `after` are the tables once the request was handled.
///
/// A join is acknowledged and announced. Every other request needs a joined
/// table: without one it is answered with an error and nothing changes; with
/// one, the table and the seat must be there, and the table's answer is
/// passed on.
pub open spec fn answers(
    game: GameView,
    connection: ConnectionView,
    request: RequestView,
    fresh_id: PlayerId,
    now: Timestamp,
    after: GameView,
    outcome: Result<Handled, HandleError>,
) -> bool {
    match request {
        RequestView::JoinTable { table_id, player_id, name } => {
            &&& outcome matches Ok(handled)
            &&& handled.reply is Some
            &&& handled.notice is Some
            &&& handled.message is None
            &&& announces_join(
                after[table_id],
                joining_id(player_id, fresh_id),
                name,
                Joined {
                    player_id: joining_id(player_id, fresh_id),
                    reply: handled.reply->0,
                    notice: handled.notice->0,
                },
            )
        },
        _ => {
            if !connection.bound() {
                outcome matches Ok(handled) && only_replies(
                    handled,
                    ResponseView::Error { msg: not_joined() },
                )
            } else if !game.contains_key(connection.table_id->0) {
                outcome == Err::<Handled, HandleError>(HandleError::TableNotFound)
            } else if needs_seat(request) && !game[connection.table_id->0].players.contains_key(
                connection.player_id->0,
            ) {
                outcome == Err::<Handled, HandleError>(HandleError::PlayerNotFound)
            } else {
                outcome matches Ok(handled) && serves(
                    game[connection.table_id->0],
                    connection.player_id->0,
                    request,
                    now,
                    handled,
                )
            }
        },
    }
}

/// Whether a game, a connection and an outcome are what handling `request`
/// leaves behind, given the fresh identifier and the time that were at hand.
pub open spec fn handles(
    game: GameView,
    connection: ConnectionView,
    request: RequestView,
    fresh_id: PlayerId,
    now: Timestamp,
    game_then: GameView,
    connection_then: ConnectionView,
    outcome: Result<Handled, HandleError>,
) -> bool {
    &&& game_then == game_after(game, connection, request, fresh_id)
    &&& connection_then == connection_after(connection, request, fresh_id)
    &&& answers(game, connection, request, fresh_id, now, game_then, outcome)
}

/// Whether `outcome` is what the closing of `connection` gives out: nothing
/// for a connection that never joined, else a notice of the player's leaving
/// for every other reachable player of the table.
pub open spec fn announces_leave(
    game: GameView,
    connection: ConnectionView,
    outcome: Result<Option<Broadcast>, HandleError>,
) -> bool {
    if !connection.bound() {
        outcome == Ok::<Option<Broadcast>, HandleError>(None)
    } else if !game.contains_key(connection.table_id->0) {
        outcome == Err::<Option<Broadcast>, HandleError>(HandleError::TableNotFound)
    } else {
        &&& outcome matches Ok(Some(notice))
        &&& notice.message@ == (ResponseView::SomePlayerLeft {
            hash_id: id_digest(connection.player_id->0),
        })
        &&& game[connection.table_id->0].reaches(
            notice.recipients@,
            set![connection.player_id->0],
        )
    }
}

/// The table that a request touches: the one that is joined, or the one the
/// connection is bound to.
pub open spec fn touched_table(connection: ConnectionView, request: RequestView) -> Option<
    Seq<char>,
> {
    match request {
        RequestView::JoinTable { table_id, player_id, name } => Some(table_id),
        _ => connection.table_id,
    }
}

/// Tables are independent and stay for good: a request leaves every table
/// but the one it touches exactly as it was, and no request removes a table.
pub proof fn lemma_other_tables_untouched(
    game: GameView,
    connection: ConnectionView,
    request: RequestView,
    fresh_id: PlayerId,
    table_id: Seq<char>,
)
    requires
        game.contains_key(table_id),
    ensures
        game_after(game, connection, request, fresh_id).contains_key(table_id),
        touched_table(connection, request) != Some(table_id) ==> game_after(
            game,
            connection,
            request,
            fresh_id,
        )[table_id] == game[table_id],
{
}

/// An outcome that carries only an answer.
fn reply_only(reply: ResponseMessages) -> (handled: Handled)
    ensures
        only_replies(handled, reply@),
        handled.reply == Some(reply),
{
    Handled { reply: Some(reply), notice: None, message: None }
}

/// The error of the router that stands for an error of a table.
fn seat_error(error: TableError) -> (mapped: HandleError)
    ensures
        mapped == HandleError::PlayerNotFound,
{
    match error {
        TableError::PlayerNotFound => HandleError::PlayerNotFound,
    }
}

/// Tells the other players of a table that the player of a closed
/// connection has left. The player's seat stays as it is.
pub fn handle_close(game: &Game, connection: &Connection) -> (outcome: Result<
    Option<Broadcast>,
    HandleError,
>)
    requires
        game.wf(),
    ensures
        announces_leave(game@, connection@, outcome),
{
    let player_id = match connection.player_id {
        Some(id) => id,
        None => {
            return Ok(None);
        },
    };
    let table_id = match &connection.table_id {
        Some(id) => id,
        None => {
            return Ok(None);
        },
    };
    match game.table(table_id.as_str()) {
        None => Err(HandleError::TableNotFound),
        Some(table) => {
            let mut except: Vec<PlayerId> = Vec::new();
            except.push(player_id);
            assert(except@.to_set() =~= set![player_id]) by {
                assert(except@[0] == player_id);
            }
            let notice = broadcast_response_message(
                table,
                Some(except),
                ResponseMessages::SomePlayerLeft { hash_id: id_hash(player_id) },
            );
            Ok(Some(notice))
        },
    }
}

/// Handles one decoded request of a connection, with `fresh_id` at hand for
/// a player who joins without an identifier and `now` for the time of a call
/// for a spin.
pub fn handle_with(
    game: &mut Game,
    connection: &mut Connection,
    request: RequestMessages,
    fresh_id: PlayerId,
    now: Timestamp,
) -> (outcome: Result<Handled, HandleError>)
    requires
        old(game).wf(),
    ensures
        final(game).wf(),
        handles(
            old(game)@,
            old(connection)@,
            request@,
            fresh_id,
            now,
            final(game)@,
            final(connection)@,
            outcome,
        ),
{
    if let RequestMessages::JoinTable { table_id, player_id, name } = request {
        let id = match player_id {
            Some(id) => id,
            None => fresh_id,
        };
        let joined = game.join_table_as(table_id.as_str(), id, name.as_str());
        connection.player_id = Some(id);
        connection.table_id = Some(table_id);
        return Ok(Handled { reply: Some(joined.reply), notice: Some(joined.notice), message: None });
    }
    let player_id = match connection.player_id {
        Some(id) => id,
        None => {
            return Ok(reply_only(error_message("No table has been joined")));
        },
    };
    let found = match &connection.table_id {
        Some(id) => game.find(id.as_str()),
        None => {
            return Ok(reply_only(error_message("No table has been joined")));
        },
    };
    let ghost table_id = connection@.table_id->0;
    let index = match found {
        Some(i) => i,
        None => {
            return Err(HandleError::TableNotFound);
        },
    };
    proof {
        game.lemma_position(index as int, table_id);
    }
    let ghost before = *game;
    let outcome = match request {
        RequestMessages::GetStatus => {
            match game.tables[index].table.get_status(player_id) {
                Ok(reply) => Ok(reply_only(reply)),
                Err(error) => Err(seat_error(error)),
            }
        },
        RequestMessages::AddBet { label, placement, local_position, amount } => {
            match game.tables[index].table.add_bet(
                player_id,
                label.as_str(),
                placement,
                local_position,
                amount,
            ) {
                Ok(reply) => Ok(Handled { reply, notice: None, message: None }),
                Err(error) => Err(seat_error(error)),
            }
        },
        RequestMessages::ClearBets => {
            match game.tables[index].table.clear_bets(player_id) {
                Ok(reply) => Ok(reply_only(reply)),
                Err(error) => Err(seat_error(error)),
            }
        },
        RequestMessages::RequestSpin => {
            match game.tables[index].table.request_spin(player_id, now) {
                Ok(SpinCall::Refused { reply }) => Ok(reply_only(reply)),
                Ok(SpinCall::Forwarded { message }) => Ok(
                    Handled { reply: None, notice: None, message: Some(message) },
                ),
                Err(error) => Err(seat_error(error)),
            }
        },
        RequestMessages::ListPlayers => {
            Ok(reply_only(game.tables[index].table.list_players(player_id)))
        },
        RequestMessages::JoinTable { .. } => Err(HandleError::TableNotFound),
    };
    proof {
        crate::registry::lemma_table_replaced(before, *game, index as int);
        let wanted = game_after(old(game)@, old(connection)@, request@, fresh_id);
        assert(game@ =~= wanted);
    }
    outcome
}

/// Handles one decoded request of a connection. A player who joins without
/// an identifier gets a fresh random one, and a call for a spin is stamped
/// with the current time.
pub fn handle(game: &mut Game, connection: &mut Connection, request: RequestMessages) -> (outcome:
    Result<Handled, HandleError>)
    requires
        old(game).wf(),
    ensures
        final(game).wf(),
        exists|fresh_id: PlayerId, now: Timestamp|
            draws_fresh_id(request@, fresh_id) && #[trigger] handles(
                old(game)@,
                old(connection)@,
                request@,
                fresh_id,
                now,
                final(game)@,
                final(connection)@,
                outcome,
            ),
{
    let fresh_id = match &request {
        RequestMessages::JoinTable { player_id: None, .. } => new_player_id(),
        _ => 0,
    };
    let now = match &request {
        RequestMessages::RequestSpin => crate::clock::now(),
        _ => 0,
    };
    handle_with(game, connection, request, fresh_id, now)
}

} // verus!

//! What clients ask of a table and what the table answers.

use vstd::prelude::*;
use crate::bets::{bet_views, BetView, Placement};
use crate::clock::Timestamp;
use crate::identity::{id_digest, id_hash, PlayerId};
use crate::session::PlayerView;
use crate::table::Table;

verus! {

broadcast use vstd::std_specs::hash::group_hash_axioms;

/// A wager as it is shown to clients: without the chip's local position.
#[derive(Debug, PartialEq, Eq)]
pub struct Bet {
    pub label: String,
    pub placement: Placement,
    pub amount: i32,
}

/// The mathematical content of a shown [`Bet`].
pub struct ShownBet {
    pub label: Seq<char>,
    pub placement: Placement,
    pub amount: int,
}

impl View for Bet {
    type V = ShownBet;

    open spec fn view(&self) -> ShownBet {
        ShownBet { label: self.label@, placement: self.placement, amount: self.amount as int }
    }
}

/// How a wager on the table is shown.
pub open spec fn shown(bet: BetView) -> ShownBet {
    ShownBet { label: bet.label, placement: bet.placement, amount: bet.amount }
}

/// How a list of wagers is shown.
pub open spec fn shown_bets(bets: Seq<BetView>) -> Seq<ShownBet> {
    bets.map_values(|b: BetView| shown(b))
}

/// The contents of a list of shown bets, in order.
pub open spec fn shown_views(bets: Seq<Bet>) -> Seq<ShownBet> {
    bets.map_values(|b: Bet| b@)
}

/// A player as others see them: by name, opaque hash and total wager.
#[derive(Debug, PartialEq, Eq)]
pub struct Player {
    pub name: String,
    pub id_hash: String,
    pub bet_amount: i32,
}

/// The mathematical content of a listed [`Player`].
pub struct ListedPlayer {
    pub name: Seq<char>,
    pub id_hash: Seq<char>,
    pub bet_amount: int,
}

impl View for Player {
    type V = ListedPlayer;

    open spec fn view(&self) -> ListedPlayer {
        ListedPlayer { name: self.name@, id_hash: self.id_hash@, bet_amount: self.bet_amount as int }
    }
}

/// The contents of a list of listed players, in order.
pub open spec fn listed_views(players: Seq<Player>) -> Seq<ListedPlayer> {
    players.map_values(|p: Player| p@)
}

/// A player's own view of their seat.
#[derive(Debug, PartialEq, Eq)]
pub struct Status {
    pub bets: Vec<Bet>,
    pub balance: i32,
    pub spin_requested: bool,
}

/// The mathematical content of a [`Status`].
pub struct StatusView {
    pub bets: Seq<ShownBet>,
    pub balance: int,
    pub spin_requested: bool,
}

impl View for Status {
    type V = StatusView;

    open spec fn view(&self) -> StatusView {
        StatusView {
            bets: shown_views(self.bets@),
            balance: self.balance as int,
            spin_requested: self.spin_requested,
        }
    }
}

/// A decoded request of a client.
#[derive(Debug, PartialEq, Eq)]
pub enum RequestMessages {
    JoinTable { table_id: String, player_id: Option<PlayerId>, name: String },
    AddBet { label: String, placement: Placement, local_position: (i32, i32), amount: i32 },
    ClearBets,
    RequestSpin,
    GetStatus,
    ListPlayers,
}

/// An answer to one client, or a notice to many.
#[derive(Debug, PartialEq, Eq)]
pub enum ResponseMessages {
    JoinTable { player_id: PlayerId },
    Status { status: Status },
    AddBet { bet: Bet, balance: i32, total_bet: i32 },
    ClearBets,
    Spin { lucky_number: u32, winning_amount: i64, balance: i32, bets_cleared: bool },
    BeginSpinTimer { start: Timestamp },
    SomePlayerJoined { hash_id: String, name: String, bet_amount: i32 },
    SomePlayerLeft { hash_id: String },
    ListPlayers { players: Vec<Player> },
    Error { msg: String },
}

/// The mathematical content of a [`ResponseMessages`].
pub enum ResponseView {
    JoinTable { player_id: PlayerId },
    Status { status: StatusView },
    AddBet { bet: ShownBet, balance: int, total_bet: int },
    ClearBets,
    Spin { lucky_number: int, winning_amount: int, balance: int, bets_cleared: bool },
    BeginSpinTimer { start: int },
    SomePlayerJoined { hash_id: Seq<char>, name: Seq<char>, bet_amount: int },
    SomePlayerLeft { hash_id: Seq<char> },
    ListPlayers { players: Seq<ListedPlayer> },
    Error { msg: Seq<char> },
}

impl View for ResponseMessages {
    type V = ResponseView;

    open spec fn view(&self) -> ResponseView {
        match *self {
            ResponseMessages::JoinTable { player_id } => ResponseView::JoinTable { player_id },
            ResponseMessages::Status { status } => ResponseView::Status { status: status@ },
            ResponseMessages::AddBet { bet, balance, total_bet } => ResponseView::AddBet {
                bet: bet@,
                balance: balance as int,
                total_bet: total_bet as int,
            },
            ResponseMessages::ClearBets => ResponseView::ClearBets,
            ResponseMessages::Spin {
                lucky_number,
                winning_amount,
                balance,
                bets_cleared,
            } => ResponseView::Spin {
                lucky_number: lucky_number as int,
                winning_amount: winning_amount as int,
                balance: balance as int,
                bets_cleared,
            },
            ResponseMessages::BeginSpinTimer { start } => ResponseView::BeginSpinTimer {
                start: start as int,
            },
            ResponseMessages::SomePlayerJoined {
                hash_id,
                name,
                bet_amount,
            } => ResponseView::SomePlayerJoined {
                hash_id: hash_id@,
                name: name@,
                bet_amount: bet_amount as int,
            },
            ResponseMessages::SomePlayerLeft { hash_id } => ResponseView::SomePlayerLeft {
                hash_id: hash_id@,
            },
            ResponseMessages::ListPlayers { players } => ResponseView::ListPlayers {
                players: listed_views(players@),
            },
            ResponseMessages::Error { msg } => ResponseView::Error { msg: msg@ },
        }
    }
}

/// The contents of an answer that may be missing.
pub open spec fn reply_view(reply: Option<ResponseMessages>) -> Option<ResponseView> {
    match reply {
        Some(message) => Some(message@),
        None => None,
    }
}

impl Bet {
    /// A shown wager.
    pub fn new(label: String, placement: Placement, amount: i32) -> (bet: Bet)
        ensures
            bet@ == (ShownBet { label: label@, placement, amount: amount as int }),
    {
        Bet { label, placement, amount }
    }
}

impl From<&crate::bets::Bet> for Bet {
    /// Shows a wager that lies on the table.
    fn from(value: &crate::bets::Bet) -> (bet: Bet) {
        Bet { label: value.label.clone(), placement: value.placement, amount: value.amount }
    }
}

impl vstd::std_specs::convert::FromSpecImpl<&crate::bets::Bet> for Bet {
    open spec fn obeys_from_spec() -> bool {
        true
    }

    open spec fn from_spec(value: &crate::bets::Bet) -> Bet {
        Bet { label: value.label, placement: value.placement, amount: value.amount }
    }
}

/// How a player's seat is listed for others.
pub open spec fn listed(player: PlayerView, id: PlayerId) -> ListedPlayer {
    ListedPlayer { name: player.name, id_hash: id_digest(id), bet_amount: player.total_bet() }
}

/// How a player's seat is shown to the player.
pub open spec fn status_view(player: PlayerView, spin_requested: bool) -> StatusView {
    StatusView { bets: shown_bets(player.bets), balance: player.balance, spin_requested }
}

impl Status {
    /// The status of `player`, who sits at `table` under `player_id`.
    pub fn from_table(table: &Table, player: &crate::session::Player, player_id: &PlayerId) -> (status:
        Status)
        ensures
            status@ == status_view(player@, table@.spin_requests.contains(*player_id)),
    {
        let mut bets: Vec<Bet> = Vec::new();
        let mut i: usize = 0;
        while i < player.bets.len()
            invariant
                i <= player.bets.len(),
                shown_views(bets@) == shown_bets(bet_views(player.bets@).take(i as int)),
            decreases player.bets.len() - i,
        {
            let bet = Bet::from(&player.bets[i]);
            proof {
                let views = bet_views(player.bets@);
                assert(bet@ == shown(player.bets@[i as int]@));
                assert(shown_views(bets@.push(bet)) =~= shown_views(bets@).push(bet@));
                assert(shown_bets(views.take(i + 1)) =~= shown_bets(views.take(i as int)).push(
                    shown(views[i as int]),
                ));
            }
            bets.push(bet);
            i += 1;
        }
        proof {
            assert(bet_views(player.bets@).take(player.bets.len() as int) =~= bet_views(
                player.bets@,
            ));
        }
        Status {
            bets,
            balance: player.balance,
            spin_requested: table.spin_requests.contains(player_id),
        }
    }
}

impl Player {
    /// How `player`, who sits under `player_id`, is listed for others.
    pub fn from_player(player: &crate::session::Player, player_id: &PlayerId) -> (entry: Player)
        requires
            player@.wf(),
        ensures
            entry@ == listed(player@, *player_id),
    {
        Player {
            name: player.name.clone(),
            id_hash: id_hash(*player_id),
            bet_amount: player.total_bet(),
        }
    }
}

/// An error answer with the given text.
pub fn error_message(text: &str) -> (message: ResponseMessages)
    ensures
        message@ == (ResponseView::Error { msg: text@ }),
{
    ResponseMessages::Error { msg: text.to_owned() }
}

} // verus!

//! One betting table: its players, their wagers and their calls for a spin.

use std::collections::HashMap;
use std::collections::HashSet;
use vstd::prelude::*;
use crate::bets::{bet_views, Bet, BetView, Placement};
use crate::clock::Timestamp;
use crate::coordinator::SpinCoordinator;
use crate::identity::PlayerId;
use crate::messages::{
    error_message, listed, listed_views, reply_view, shown, status_view, ListedPlayer,
    ResponseMessages, ResponseView, Status,
};
use crate::seqs::{
    contains_id, lemma_not_in_earlier, lemma_push_contains, lemma_push_keeps_distinct,
    lemma_take_contains,
};
use crate::session::{Player, PlayerView};
use vstd::std_specs::iter::IteratorSpec;

verus! {

broadcast use vstd::std_specs::hash::group_hash_axioms;

/// A table. It always has a coordinator, which is idle until a player calls
/// for a spin.
#[derive(Debug)]
pub struct Table {
    pub players: HashMap<PlayerId, Player>,
    pub spin_requests: HashSet<PlayerId>,
    pub coordinator: SpinCoordinator,
}

/// Why a table could not serve a request.
#[derive(Clone, Copy, Debug, PartialEq, Eq, Structural)]
pub enum TableError {
    /// The player has no seat at the table.
    PlayerNotFound,
}

/// The mathematical content of a [`Table`].
pub struct TableView {
    pub players: Map<PlayerId, PlayerView>,
    pub spin_requests: Set<PlayerId>,
    pub armed_since: Option<Timestamp>,
}

/// The contents of the seats of a table.
pub open spec fn player_views(players: Map<PlayerId, Player>) -> Map<PlayerId, PlayerView> {
    Map::new(|id: PlayerId| players.contains_key(id), |id: PlayerId| players[id]@)
}

impl View for Table {
    type V = TableView;

    open spec fn view(&self) -> TableView {
        TableView {
            players: player_views(self.players@),
            spin_requests: self.spin_requests@,
            armed_since: self.coordinator.armed_since,
        }
    }
}

/// The text of the answer to a wager that stakes nothing or less.
pub open spec fn bad_amount() -> Seq<char> {
    "Bad Request: amount must be positive"@
}

impl TableView {
    /// A table has finitely many seats, each of them well formed, and only
    /// seated players call for a spin.
    pub open spec fn wf(self) -> bool {
        &&& self.players.dom().finite()
        &&& self.spin_requests.subset_of(self.players.dom())
        &&& forall|id: PlayerId|
            self.players.contains_key(id) ==> (#[trigger] self.players[id]).wf()
    }

    /// A table without players.
    pub open spec fn empty() -> TableView {
        TableView { players: Map::empty(), spin_requests: Set::empty(), armed_since: None }
    }

    /// The players whose outbound channel is open.
    pub open spec fn open_players(self) -> Set<PlayerId> {
        self.players.dom().filter(|id: PlayerId| self.players[id].channel_open)
    }

    /// Whether every player who called for a spin is still reachable.
    pub open spec fn requesters_connected(self) -> bool {
        self.spin_requests.subset_of(self.open_players())
    }

    /// The table after `id` joined under `name`: a known player gets a new
    /// open channel and keeps name, bets and balance; an unknown one gets a
    /// fresh seat.
    pub open spec fn joined(self, id: PlayerId, name: Seq<char>) -> TableView {
        let seat = if self.players.contains_key(id) {
            PlayerView { channel_open: true, ..self.players[id] }
        } else {
            PlayerView::fresh(name)
        };
        TableView { players: self.players.insert(id, seat), ..self }
    }

    /// The table after the channel of `id` was seen open or closed.
    pub open spec fn with_channel(self, id: PlayerId, open: bool) -> TableView {
        if self.players.contains_key(id) {
            TableView {
                players: self.players.insert(
                    id,
                    PlayerView { channel_open: open, ..self.players[id] },
                ),
                ..self
            }
        } else {
            self
        }
    }

    /// Whether a wager of `amount` by `id` is taken: the player is seated,
    /// has not called for a spin, stakes something, and can cover it on top
    /// of the wagers already made.
    pub open spec fn accepts_bet(self, id: PlayerId, amount: int) -> bool {
        &&& self.players.contains_key(id)
        &&& !self.spin_requests.contains(id)
        &&& amount > 0
        &&& self.players[id].total_bet() + amount <= self.players[id].balance
    }

    /// The table after `id` tried to add `bet`.
    pub open spec fn after_add_bet(self, id: PlayerId, bet: BetView) -> TableView {
        if self.accepts_bet(id, bet.amount) {
            TableView {
                players: self.players.insert(
                    id,
                    PlayerView { bets: self.players[id].bets.push(bet), ..self.players[id] },
                ),
                ..self
            }
        } else {
            self
        }
    }

    /// What the seated player `id` is told after trying to add `bet`: an
    /// error while a call for a spin is outstanding, an error where the wager
    /// stakes nothing or less, the bet with balance and new total where it
    /// was taken, and nothing where the balance does not cover it.
    pub open spec fn add_bet_reply(self, id: PlayerId, bet: BetView) -> Option<ResponseView> {
        if self.spin_requests.contains(id) {
            Some(ResponseView::Error { msg: "Already requested for spin"@ })
        } else if bet.amount <= 0 {
            Some(ResponseView::Error { msg: bad_amount() })
        } else if self.accepts_bet(id, bet.amount) {
            Some(
                ResponseView::AddBet {
                    bet: shown(bet),
                    balance: self.players[id].balance,
                    total_bet: self.players[id].total_bet() + bet.amount,
                },
            )
        } else {
            None
        }
    }

    /// Whether `id` may clear the bets: the player is seated and has not
    /// called for a spin.
    pub open spec fn clears_bets(self, id: PlayerId) -> bool {
        self.players.contains_key(id) && !self.spin_requests.contains(id)
    }

    /// The table after `id` asked to clear the bets.
    pub open spec fn after_clear_bets(self, id: PlayerId) -> TableView {
        if self.clears_bets(id) {
            TableView {
                players: self.players.insert(
                    id,
                    PlayerView { bets: Seq::empty(), ..self.players[id] },
                ),
                ..self
            }
        } else {
            self
        }
    }

    /// What `id` is told after asking to clear the bets.
    pub open spec fn clear_bets_reply(self, id: PlayerId) -> ResponseView {
        if self.spin_requests.contains(id) {
            ResponseView::Error { msg: "No table has been joined"@ }
        } else {
            ResponseView::ClearBets
        }
    }
}

impl TableView {
    /// What `id`, who has a seat, is told about it.
    pub open spec fn status_reply(self, id: PlayerId) -> ResponseView {
        ResponseView::Status {
            status: status_view(self.players[id], self.spin_requests.contains(id)),
        }
    }

    /// Whether `ids` names every seated player once and `entries` lists
    /// them in that order.
    pub open spec fn lists(self, ids: Seq<PlayerId>, entries: Seq<ListedPlayer>) -> bool {
        &&& ids.no_duplicates()
        &&& ids.to_set() == self.players.dom()
        &&& entries == ids.map_values(|id: PlayerId| listed(self.players[id], id))
    }

    /// Whether `entries` lists every seated player once, in some order.
    pub open spec fn is_listing(self, entries: Seq<ListedPlayer>) -> bool {
        exists|ids: Seq<PlayerId>| self.lists(ids, entries)
    }

    /// Whether `reply` is what `id` is told on asking for the players: an
    /// error while a call for a spin is outstanding, else a listing.
    pub open spec fn answers_list_players(self, id: PlayerId, reply: ResponseView) -> bool {
        if self.spin_requests.contains(id) {
            reply == (ResponseView::Error { msg: "No table has been joined"@ })
        } else {
            reply matches ResponseView::ListPlayers { players } && self.is_listing(players)
        }
    }

    /// Whether `recipients` names once each player with an open channel who
    /// is not in `except`.
    pub open spec fn reaches(self, recipients: Seq<PlayerId>, except: Set<PlayerId>) -> bool {
        &&& recipients.no_duplicates()
        &&& recipients.to_set() == self.open_players().difference(except)
    }
}

impl Table {
    /// Whether the table is well formed.
    pub open spec fn wf(&self) -> bool {
        self@.wf()
    }

    /// An empty table with an idle coordinator.
    pub fn new() -> (table: Table)
        ensures
            table@ == TableView::empty(),
            table.wf(),
    {
        let table = Table {
            players: HashMap::new(),
            spin_requests: HashSet::new(),
            coordinator: SpinCoordinator::new(),
        };
        assert(table@.players =~= Map::empty());
        table
    }

    /// Seats `player_id` under `name`, or brings a seated player back with a
    /// new open channel.
    pub fn join(&mut self, player_id: PlayerId, name: &str)
        requires
            old(self).wf(),
        ensures
            final(self)@ == old(self)@.joined(player_id, name@),
            final(self).wf(),
            old(self)@.requesters_connected() ==> final(self)@.requesters_connected(),
    {
        match self.players.remove(&player_id) {
            Some(mut player) => {
                player.channel_open = true;
                self.players.insert(player_id, player);
            },
            None => {
                self.players.insert(player_id, Player::new(name, Vec::new()));
            },
        }
        proof {
            assert(bet_views(Seq::<Bet>::empty()) =~= Seq::<BetView>::empty());
            assert(self@.players =~= old(self)@.joined(player_id, name@).players);
            let after = self@;
            assert forall|id: PlayerId| after.players.contains_key(id) implies (
            #[trigger] after.players[id]).wf() by {
                if id != player_id {
                    assert(old(self)@.players[id].wf());
                } else if old(self)@.players.contains_key(id) {
                    assert(old(self)@.players[id].wf());
                }
            }
        }
    }

    /// Records that the outbound channel of `player_id` was seen open or
    /// closed. Nothing changes for a player without a seat.
    pub fn set_channel_open(&mut self, player_id: PlayerId, open: bool)
        requires
            old(self).wf(),
        ensures
            final(self)@ == old(self)@.with_channel(player_id, open),
            final(self).wf(),
            old(self)@.requesters_connected() && (open || !old(self)@.spin_requests.contains(
                player_id,
            )) ==> final(self)@.requesters_connected(),
    {
        match self.players.remove(&player_id) {
            Some(mut player) => {
                player.channel_open = open;
                self.players.insert(player_id, player);
            },
            None => {},
        }
        proof {
            assert(self@.players =~= old(self)@.with_channel(player_id, open).players);
            let after = self@;
            assert forall|id: PlayerId| after.players.contains_key(id) implies (
            #[trigger] after.players[id]).wf() by {
                assert(old(self)@.players[id].wf());
            }
        }
    }

    /// Adds a wager of `player_id`, unless the player has called for a spin,
    /// stakes nothing or less, or cannot cover it.
    pub fn add_bet(
        &mut self,
        player_id: PlayerId,
        label: &str,
        placement: Placement,
        local_position: (i32, i32),
        amount: i32,
    ) -> (outcome: Result<Option<ResponseMessages>, TableError>)
        requires
            old(self).wf(),
        ensures
            final(self).wf(),
            old(self)@.requesters_connected() ==> final(self)@.requesters_connected(),
            ({
                let bet = BetView {
                    label: label@,
                    placement,
                    local_position: (local_position.0 as int, local_position.1 as int),
                    amount: amount as int,
                };
                match outcome {
                    Ok(reply) => {
                        &&& old(self)@.players.contains_key(player_id)
                        &&& final(self)@ == old(self)@.after_add_bet(player_id, bet)
                        &&& reply_view(reply) == old(self)@.add_bet_reply(player_id, bet)
                    },
                    Err(error) => {
                        &&& error == TableError::PlayerNotFound
                        &&& !old(self)@.players.contains_key(player_id)
                        &&& final(self)@ == old(self)@
                    },
                }
            }),
    {
        if self.spin_requests.contains(&player_id) {
            return Ok(Some(error_message("Already requested for spin")));
        }
        let total: i64 = match self.players.get(&player_id) {
            None => {
                return Err(TableError::PlayerNotFound);
            },
            Some(player) => {
                assert(player@.wf());
                player.total_bet() as i64 + amount as i64
            },
        };
        if amount <= 0 {
            proof {
                reveal_strlit("Bad Request: amount must be positive");
            }
            return Ok(Some(error_message("Bad Request: amount must be positive")));
        }
        let mut player = match self.players.remove(&player_id) {
            None => {
                return Err(TableError::PlayerNotFound);
            },
            Some(player) => player,
        };
        if total > player.balance as i64 {
            self.players.insert(player_id, player);
            assert(self.players@ =~= old(self).players@);
            return Ok(None);
        }
        let ghost before = player@;
        player.bets.push(Bet::new(label.to_owned(), placement, local_position, amount));
        let reply = ResponseMessages::AddBet {
            bet: crate::messages::Bet::new(label.to_owned(), placement, amount),
            balance: player.balance,
            total_bet: total as i32,
        };
        proof {
            let bet = BetView {
                label: label@,
                placement,
                local_position: (local_position.0 as int, local_position.1 as int),
                amount: amount as int,
            };
            assert(player@.bets =~= before.bets.push(bet));
            assert(player@.bets.drop_last() =~= before.bets);
            assert(player@.wf()) by {
                assert forall|i: int| 0 <= i < player@.bets.len() implies (
                #[trigger] player@.bets[i]).wf() by {
                    if i < before.bets.len() {
                        assert(before.bets[i].wf());
                    }
                }
            }
        }
        self.players.insert(player_id, player);
        proof {
            let bet = BetView {
                label: label@,
                placement,
                local_position: (local_position.0 as int, local_position.1 as int),
                amount: amount as int,
            };
            assert(self@.players =~= old(self)@.after_add_bet(player_id, bet).players);
            let after = self@;
            assert forall|id: PlayerId| after.players.contains_key(id) implies (
            #[trigger] after.players[id]).wf() by {
                if id != player_id {
                    assert(old(self)@.players[id].wf());
                }
            }
        }
        Ok(Some(reply))
    }

    /// Takes all wagers of `player_id` off the table, unless the player has
    /// called for a spin.
    pub fn clear_bets(&mut self, player_id: PlayerId) -> (outcome: Result<
        ResponseMessages,
        TableError,
    >)
        requires
            old(self).wf(),
        ensures
            final(self).wf(),
            old(self)@.requesters_connected() ==> final(self)@.requesters_connected(),
            match outcome {
                Ok(reply) => {
                    &&& old(self)@.players.contains_key(player_id)
                    &&& final(self)@ == old(self)@.after_clear_bets(player_id)
                    &&& reply@ == old(self)@.clear_bets_reply(player_id)
                },
                Err(error) => {
                    &&& error == TableError::PlayerNotFound
                    &&& !old(self)@.players.contains_key(player_id)
                    &&& final(self)@ == old(self)@
                },
            },
    {
        if self.spin_requests.contains(&player_id) {
            return Ok(error_message("No table has been joined"));
        }
        match self.players.remove(&player_id) {
            None => {
                assert(self.players@ =~= old(self).players@);
                Err(TableError::PlayerNotFound)
            },
            Some(mut player) => {
                player.bets = Vec::new();
                assert(player@.bets =~= Seq::<BetView>::empty());
                self.players.insert(player_id, player);
                proof {
                    assert(self@.players =~= old(self)@.after_clear_bets(player_id).players);
                    let after = self@;
                    assert forall|id: PlayerId| after.players.contains_key(id) implies (
                    #[trigger] after.players[id]).wf() by {
                        if id != player_id {
                            assert(old(self)@.players[id].wf());
                        }
                    }
                }
                Ok(ResponseMessages::ClearBets)
            },
        }
    }

    /// The identifiers of the seated players, each once, in no particular
    /// order.
    pub fn player_ids(&self) -> (ids: Vec<PlayerId>)
        ensures
            ids@.no_duplicates(),
            ids@.to_set() == self@.players.dom(),
    {
        let ids = key_list(&self.players);
        assert(self@.players.dom() =~= self.players@.dom());
        ids
    }

    /// Answers a player's question about the own seat.
    pub fn get_status(&self, player_id: PlayerId) -> (outcome: Result<ResponseMessages, TableError>)
        ensures
            match outcome {
                Ok(reply) => {
                    &&& self@.players.contains_key(player_id)
                    &&& reply@ == self@.status_reply(player_id)
                },
                Err(error) => {
                    &&& error == TableError::PlayerNotFound
                    &&& !self@.players.contains_key(player_id)
                },
            },
    {
        match self.players.get(&player_id) {
            None => Err(TableError::PlayerNotFound),
            Some(player) => Ok(
                ResponseMessages::Status { status: Status::from_table(self, player, &player_id) },
            ),
        }
    }

    /// The players that a notice reaches: those with an open channel, but
    /// for the ones in `except`.
    pub fn recipients(&self, except: &Vec<PlayerId>) -> (ids: Vec<PlayerId>)
        ensures
            self@.reaches(ids@, except@.to_set()),
    {
        let keys = key_list(&self.players);
        let mut ids: Vec<PlayerId> = Vec::new();
        let mut i: usize = 0;
        while i < keys.len()
            invariant
                i <= keys.len(),
                keys@.no_duplicates(),
                keys@.to_set() == self.players@.dom(),
                ids@.no_duplicates(),
                forall|id: PlayerId| #[trigger]
                    ids@.contains(id) <==> keys@.take(i as int).contains(id)
                        && self.players@[id].channel_open && !except@.contains(id),
            decreases keys.len() - i,
        {
            let id = keys[i];
            assert(keys@.to_set().contains(id)) by {
                assert(keys@.contains(id));
            }
            let wanted = match self.players.get(&id) {
                Some(player) => player.channel_open && !contains_id(except, id),
                None => false,
            };
            let ghost earlier = ids@;
            proof {
                lemma_not_in_earlier(keys@, i as int);
                if wanted {
                    lemma_push_keeps_distinct(ids@, id);
                }
            }
            if wanted {
                ids.push(id);
            }
            proof {
                let later = keys@.take(i + 1);
                assert forall|x: PlayerId| #[trigger]
                    ids@.contains(x) <==> later.contains(x) && self.players@[x].channel_open
                        && !except@.contains(x) by {
                    lemma_take_contains(keys@, i as int, x);
                    lemma_push_contains(earlier, id, x);
                    assert(earlier.contains(x) <==> keys@.take(i as int).contains(x)
                        && self.players@[x].channel_open && !except@.contains(x));
                }
            }
            i += 1;
        }
        proof {
            assert(keys@.take(keys.len() as int) =~= keys@);
            let wanted = self@.open_players().difference(except@.to_set());
            assert forall|x: PlayerId| ids@.to_set().contains(x) <==> wanted.contains(x) by {
                if wanted.contains(x) {
                    assert(keys@.to_set().contains(x));
                }
            }
            assert(ids@.to_set() =~= wanted);
        }
        ids
    }

    /// Answers a player's question about who sits at the table.
    pub fn list_players(&self, player_id: PlayerId) -> (reply: ResponseMessages)
        requires
            self.wf(),
        ensures
            self@.answers_list_players(player_id, reply@),
    {
        if self.spin_requests.contains(&player_id) {
            return error_message("No table has been joined");
        }
        let keys = key_list(&self.players);
        let mut players: Vec<crate::messages::Player> = Vec::new();
        let mut i: usize = 0;
        while i < keys.len()
            invariant
                i <= keys.len(),
                self.wf(),
                keys@.to_set() == self.players@.dom(),
                listed_views(players@) == keys@.take(i as int).map_values(
                    |id: PlayerId| listed(self@.players[id], id),
                ),
            decreases keys.len() - i,
        {
            let id = keys[i];
            assert(keys@.to_set().contains(id)) by {
                assert(keys@.contains(id));
            }
            match self.players.get(&id) {
                Some(player) => {
                    assert(self@.players[id] == player@);
                    let entry = crate::messages::Player::from_player(player, &id);
                    proof {
                        assert(listed_views(players@.push(entry)) =~= listed_views(players@).push(
                            entry@,
                        ));
                        assert(keys@.take(i + 1).map_values(
                            |id: PlayerId| listed(self@.players[id], id),
                        ) =~= keys@.take(i as int).map_values(
                            |id: PlayerId| listed(self@.players[id], id),
                        ).push(entry@));
                    }
                    players.push(entry);
                },
                None => {
                    assert(false);
                },
            }
            i += 1;
        }
        proof {
            assert(keys@.take(keys.len() as int) =~= keys@);
            assert(self@.players.dom() =~= self.players@.dom());
            assert(self@.lists(keys@, listed_views(players@)));
        }
        ResponseMessages::ListPlayers { players }
    }
}

/// The keys of a seat map, each once.
fn key_list(players: &HashMap<PlayerId, Player>) -> (keys: Vec<PlayerId>)
    ensures
        keys@.no_duplicates(),
        keys@.to_set() == players@.dom(),
{
    let mut keys: Vec<PlayerId> = Vec::new();
    let ghost all: Seq<PlayerId> = players.keys().remaining().unref();
    for key in it: players.keys()
        invariant
            keys@ == all.take(it.index() as int),
            it.seq().unref() == all,
            all.to_set() == players@.dom(),
            all.no_duplicates(),
    {
        keys.push(*key);
    }
    assert(keys@ =~= all);
    keys
}

} // verus!

//! The game registry: every table of the process, by its identifier.

use vstd::prelude::*;
use crate::broadcast::broadcast_response_message;
use crate::identity::{id_digest, id_hash, is_random_uuid, new_player_id, PlayerId};
use crate::judge::same_text;
use crate::messages::{ResponseMessages, ResponseView};
use crate::round::Broadcast;
use crate::table::{Table, TableView};

verus! {

broadcast use vstd::std_specs::hash::group_hash_axioms;

/// A table's identifier, as clients name it.
pub type TableId = String;

/// A table together with the identifier it is known by.
#[derive(Debug)]
pub struct Hosted {
    pub id: TableId,
    pub table: Table,
}

/// All tables. A table comes into being when its identifier is first joined
/// and is never removed.
#[derive(Debug)]
pub struct Game {
    pub tables: Vec<Hosted>,
}

/// The mathematical content of a [`Game`]: the tables by identifier.
pub type GameView = Map<Seq<char>, TableView>;

/// What a join gives out.
#[derive(Debug, PartialEq, Eq)]
pub struct Joined {
    /// The identifier the player is seated under.
    pub player_id: PlayerId,
    /// The acknowledgment for the joining player.
    pub reply: ResponseMessages,
    /// The announcement for the other players of the table.
    pub notice: Broadcast,
}

/// The table that a join of `table_id` works on: the one that is there, or
/// an empty new one.
pub open spec fn table_or_new(game: GameView, table_id: Seq<char>) -> TableView {
    if game.contains_key(table_id) {
        game[table_id]
    } else {
        TableView::empty()
    }
}

/// The tables after `player_id` joined `table_id` under `name`.
pub open spec fn after_join(
    game: GameView,
    table_id: Seq<char>,
    player_id: PlayerId,
    name: Seq<char>,
) -> GameView {
    game.insert(table_id, table_or_new(game, table_id).joined(player_id, name))
}

/// Whether `joined` is what a join of `player_id` under `name` gives out,
/// where `table` is the table after the join: the acknowledgment carries the
/// identifier, and the announcement, with the player's opaque hash, the name
/// and the total wager, goes to every reachable player but the one who
/// joined.
pub open spec fn announces_join(
    table: TableView,
    player_id: PlayerId,
    name: Seq<char>,
    joined: Joined,
) -> bool {
    &&& joined.player_id == player_id
    &&& joined.reply@ == (ResponseView::JoinTable { player_id })
    &&& joined.notice.message@ == (ResponseView::SomePlayerJoined {
        hash_id: id_digest(player_id),
        name,
        bet_amount: table.players[player_id].total_bet(),
    })
    &&& table.reaches(joined.notice.recipients@, set![player_id])
}

impl View for Game {
    type V = GameView;

    open spec fn view(&self) -> GameView {
        Map::new(
            |id: Seq<char>| self.hosts(id),
            |id: Seq<char>| self.tables@[self.position(id)].table@,
        )
    }
}

impl Default for Game {
    /// A registry without tables.
    fn default() -> (game: Game)
        ensures
            game@ == Map::<Seq<char>, TableView>::empty(),
            game.wf(),
    {
        let game = Game { tables: Vec::new() };
        assert(game@ =~= Map::<Seq<char>, TableView>::empty());
        game
    }
}

impl Game {
    /// Whether the table at position `i` is known as `id`.
    pub open spec fn hosts_at(&self, i: int, id: Seq<char>) -> bool {
        0 <= i < self.tables@.len() && self.tables@[i].id@ == id
    }

    /// Whether some table is known as `id`.
    pub open spec fn hosts(&self, id: Seq<char>) -> bool {
        exists|i: int| self.hosts_at(i, id)
    }

    /// A position at which the table known as `id` stands.
    pub open spec fn position(&self, id: Seq<char>) -> int {
        choose|i: int| self.hosts_at(i, id)
    }

    /// No two tables share an identifier, and every table is well formed.
    pub open spec fn wf(&self) -> bool {
        &&& forall|i: int, j: int|
            0 <= i < j < self.tables@.len() ==> (#[trigger] self.tables@[i]).id@ != (
            #[trigger] self.tables@[j]).id@
        &&& forall|i: int| 0 <= i < self.tables@.len() ==> (#[trigger] self.tables@[i]).table.wf()
    }

    /// In a well-formed registry a table's identifier fixes its position.
    pub proof fn lemma_position(&self, i: int, id: Seq<char>)
        requires
            self.wf(),
            self.hosts_at(i, id),
        ensures
            self.hosts(id),
            self.position(id) == i,
            self@.contains_key(id),
            self@[id] == self.tables@[i].table@,
    {
        let j = self.position(id);
        assert(self.hosts_at(j, id));
        if i < j {
            assert(self.tables@[i].id@ != self.tables@[j].id@);
        } else if j < i {
            assert(self.tables@[j].id@ != self.tables@[i].id@);
        }
    }

    /// The position of the table known as `table_id`, if there is one.
    pub fn find(&self, table_id: &str) -> (found: Option<usize>)
        ensures
            match found {
                Some(i) => self.hosts_at(i as int, table_id@),
                None => !self.hosts(table_id@),
            },
    {
        let mut i: usize = 0;
        while i < self.tables.len()
            invariant
                i <= self.tables.len(),
                forall|j: int| 0 <= j < i ==> !self.hosts_at(j, table_id@),
            decreases self.tables.len() - i,
        {
            if same_text(self.tables[i].id.as_str(), table_id) {
                return Some(i);
            }
            i += 1;
        }
        None
    }

    /// The table known as `table_id`, if there is one.
    pub fn table(&self, table_id: &str) -> (found: Option<&Table>)
        requires
            self.wf(),
        ensures
            match found {
                Some(table) => self@.contains_key(table_id@) && table@ == self@[table_id@]
                    && table.wf(),
                None => !self@.contains_key(table_id@),
            },
    {
        match self.find(table_id) {
            Some(i) => {
                proof {
                    self.lemma_position(i as int, table_id@);
                }
                Some(&self.tables[i].table)
            },
            None => None,
        }
    }

    /// Seats `player_id` at the table `table_id` under `name`.
    ///
    /// An unknown table is created, empty and with an idle coordinator,
    /// before the player is seated. A player who has a seat there already
    /// gets a new open channel and keeps bets and balance.
    pub fn join_table_as(&mut self, table_id: &str, player_id: PlayerId, name: &str) -> (joined:
        Joined)
        requires
            old(self).wf(),
        ensures
            final(self).wf(),
            final(self)@ == after_join(old(self)@, table_id@, player_id, name@),
            announces_join(final(self)@[table_id@], player_id, name@, joined),
    {
        let index: usize = match self.find(table_id) {
            Some(i) => {
                proof {
                    self.lemma_position(i as int, table_id@);
                }
                i
            },
            None => {
                self.tables.push(Hosted { id: table_id.to_owned(), table: Table::new() });
                proof {
                    let last = self.tables@.len() - 1;
                    assert forall|i: int, j: int|
                        0 <= i < j < self.tables@.len() implies (#[trigger] self.tables@[i]).id@ != (
                    #[trigger] self.tables@[j]).id@ by {
                        if j == last {
                            assert(old(self).hosts_at(i, self.tables@[i].id@));
                            assert(old(self).hosts(self.tables@[i].id@));
                        } else {
                            assert(old(self).tables@[i].id@ != old(self).tables@[j].id@);
                        }
                    }
                    assert forall|i: int| 0 <= i < self.tables@.len() implies (
                    #[trigger] self.tables@[i]).table.wf() by {
                        if i < last {
                            assert(old(self).tables@[i].table.wf());
                        }
                    }
                }
                self.tables.len() - 1
            },
        };
        let ghost staged = *self;
        assert(staged.wf());
        assert(staged.hosts_at(index as int, table_id@));
        assert(staged.tables@[index as int].table@ == table_or_new(old(self)@, table_id@));
        self.tables[index].table.join(player_id, name);
        proof {
            assert forall|i: int, j: int|
                0 <= i < j < self.tables@.len() implies (#[trigger] self.tables@[i]).id@ != (
            #[trigger] self.tables@[j]).id@ by {
                assert(staged.tables@[i].id@ != staged.tables@[j].id@);
            }
            assert forall|i: int| 0 <= i < self.tables@.len() implies (
            #[trigger] self.tables@[i]).table.wf() by {
                if i != index {
                    assert(staged.tables@[i].table.wf());
                }
            }
            assert(self.hosts_at(index as int, table_id@));
            self.lemma_position(index as int, table_id@);
            let wanted = after_join(old(self)@, table_id@, player_id, name@);
            assert forall|id: Seq<char>| self@.contains_key(id) <==> wanted.contains_key(id) by {
                if self.hosts(id) {
                    let i = self.position(id);
                    assert(self.hosts_at(i, id));
                    if id != table_id@ {
                        assert(old(self).hosts_at(i, id));
                    }
                }
                if old(self).hosts(id) {
                    let i = old(self).position(id);
                    assert(old(self).hosts_at(i, id));
                    assert(self.hosts_at(i, id));
                }
            }
            assert forall|id: Seq<char>| self@.contains_key(id) implies self@[id] == wanted[id] by {
                if id != table_id@ {
                    let i = self.position(id);
                    assert(self.hosts_at(i, id));
                    assert(old(self).hosts_at(i, id));
                    old(self).lemma_position(i, id);
                    self.lemma_position(i, id);
                }
            }
            assert(self@ =~= wanted);
        }
        let table = &self.tables[index].table;
        let bet_amount: i32 = match table.players.get(&player_id) {
            Some(player) => {
                assert(table@.players[player_id] == player@);
                player.total_bet()
            },
            None => 0,
        };
        let announcement = ResponseMessages::SomePlayerJoined {
            hash_id: id_hash(player_id),
            name: name.to_owned(),
            bet_amount,
        };
        let mut except: Vec<PlayerId> = Vec::new();
        except.push(player_id);
        assert(except@.to_set() =~= set![player_id]) by {
            assert(except@[0] == player_id);
        }
        let notice = broadcast_response_message(table, Some(except), announcement);
        Joined { player_id, reply: ResponseMessages::JoinTable { player_id }, notice }
    }

    /// Seats a player at the table `table_id` under `name`: under the
    /// identifier the player brings, or under a fresh random one.
    pub fn join_table(&mut self, table_id: &str, player_id: Option<PlayerId>, name: &str) -> (joined:
        Joined)
        requires
            old(self).wf(),
        ensures
            final(self).wf(),
            match player_id {
                Some(id) => joined.player_id == id,
                None => is_random_uuid(joined.player_id),
            },
            final(self)@ == after_join(old(self)@, table_id@, joined.player_id, name@),
            announces_join(final(self)@[table_id@], joined.player_id, name@, joined),
    {
        let id = match player_id {
            Some(id) => id,
            None => new_player_id(),
        };
        self.join_table_as(table_id, id, name)
    }
}

/// Changing one table in place changes the registry at that table's
/// identifier and nowhere else.
pub proof fn lemma_table_replaced(before: Game, after: Game, i: int)
    requires
        before.wf(),
        0 <= i < before.tables@.len(),
        after.tables@.len() == before.tables@.len(),
        forall|j: int|
            0 <= j < before.tables@.len() ==> (#[trigger] after.tables@[j]).id@
                == before.tables@[j].id@,
        forall|j: int|
            0 <= j < before.tables@.len() && j != i ==> (#[trigger] after.tables@[j]).table@
                == before.tables@[j].table@,
        after.tables@[i].table.wf(),
    ensures
        after.wf(),
        after@ == before@.insert(before.tables@[i].id@, after.tables@[i].table@),
{
    assert forall|j: int, k: int| 0 <= j < k < after.tables@.len() implies (
    #[trigger] after.tables@[j]).id@ != (#[trigger] after.tables@[k]).id@ by {
        assert(before.tables@[j].id@ != before.tables@[k].id@);
    }
    assert forall|j: int| 0 <= j < after.tables@.len() implies (
    #[trigger] after.tables@[j]).table.wf() by {
        if j != i {
            assert(before.tables@[j].table.wf());
        }
    }
    let wanted = before@.insert(before.tables@[i].id@, after.tables@[i].table@);
    assert forall|id: Seq<char>| after@.contains_key(id) <==> wanted.contains_key(id) by {
        if after.hosts(id) {
            let j = after.position(id);
            assert(after.hosts_at(j, id));
            assert(before.hosts_at(j, id));
        }
        if before.hosts(id) {
            let j = before.position(id);
            assert(before.hosts_at(j, id));
            assert(after.hosts_at(j, id));
        }
        if id == before.tables@[i].id@ {
            assert(after.hosts_at(i, id));
        }
    }
    assert forall|id: Seq<char>| after@.contains_key(id) implies after@[id] == wanted[id] by {
        let j = after.position(id);
        assert(after.hosts_at(j, id));
        assert(before.hosts_at(j, id));
        after.lemma_position(j, id);
        before.lemma_position(j, id);
    }
    assert(after@ =~= wanted);
}

} // verus!

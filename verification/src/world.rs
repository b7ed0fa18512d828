//! The registry of connected players.
//!
//! A `WorldState` is a mapping from player id to player record. It keeps
//! its records in the order in which their ids were first admitted, so that
//! a snapshot is the same list every time it is taken from the same state.

use vstd::prelude::*;
use crate::event::{clone_players, player_views};
use crate::player::{Player, PlayerView};

verus! {

/// No two records of a roster share an id.
pub open spec fn distinct_ids(r: Seq<PlayerView>) -> bool {
    forall|i: int, j: int| 0 <= i < j < r.len() ==> r[i].id != r[j].id
}

/// Record `i` of the roster is the one with the given id.
pub open spec fn is_at(r: Seq<PlayerView>, id: Seq<char>, i: int) -> bool {
    0 <= i < r.len() && r[i].id == id
}

/// The mapping that a roster lists: each id to the record that carries it.
pub open spec fn roster_map(r: Seq<PlayerView>) -> Map<Seq<char>, PlayerView> {
    Map::new(
        |id: Seq<char>| exists|i: int| is_at(r, id, i),
        |id: Seq<char>| r[choose|i: int| is_at(r, id, i)],
    )
}

/// A roster after the record `p` was put in: in the place of the record
/// with the same id where there is one, at the end otherwise.
pub open spec fn roster_insert(r: Seq<PlayerView>, p: PlayerView) -> Seq<PlayerView> {
    if exists|i: int| is_at(r, p.id, i) {
        r.update(choose|i: int| is_at(r, p.id, i), p)
    } else {
        r.push(p)
    }
}

/// A roster after the record with the given id, if any, was taken out.
pub open spec fn roster_remove(r: Seq<PlayerView>, id: Seq<char>) -> Seq<PlayerView> {
    if exists|i: int| is_at(r, id, i) {
        r.remove(choose|i: int| is_at(r, id, i))
    } else {
        r
    }
}

/// A roster after the record with the given id, if any, moved to `(x, y)`.
pub open spec fn roster_move(r: Seq<PlayerView>, id: Seq<char>, x: u32, y: u32) -> Seq<
    PlayerView,
> {
    if exists|i: int| is_at(r, id, i) {
        let i = choose|i: int| is_at(r, id, i);
        r.update(i, r[i].moved_to(x, y))
    } else {
        r
    }
}

/// A mapping after the player with the given id, if present, moved to
/// `(x, y)`.
pub open spec fn moved(
    m: Map<Seq<char>, PlayerView>,
    id: Seq<char>,
    x: u32,
    y: u32,
) -> Map<Seq<char>, PlayerView> {
    if m.contains_key(id) {
        m.insert(id, m[id].moved_to(x, y))
    } else {
        m
    }
}

/// The players that are connected right now, by id.
pub struct WorldState {
    players: Vec<Player>,
}

impl View for WorldState {
    type V = Map<Seq<char>, PlayerView>;

    open spec fn view(&self) -> Map<Seq<char>, PlayerView> {
        roster_map(self.roster())
    }
}

impl WorldState {
    /// The records in the order in which their ids were admitted.
    pub closed spec fn roster(&self) -> Seq<PlayerView> {
        player_views(self.players@)
    }

    /// The invariant of the registry: one record per id.
    pub open spec fn wf(&self) -> bool {
        distinct_ids(self.roster())
    }

    /// An empty registry.
    pub fn new() -> (world: WorldState)
        ensures
            world.wf(),
            world.roster() == Seq::<PlayerView>::empty(),
            world@ == Map::<Seq<char>, PlayerView>::empty(),
    {
        let world = WorldState { players: Vec::new() };
        assert(world@ =~= Map::<Seq<char>, PlayerView>::empty());
        world
    }

    /// Position of the record with the given id.
    fn find(&self, id: &String) -> (at: Option<usize>)
        requires
            self.wf(),
        ensures
            match at {
                Some(i) => is_at(self.roster(), id@, i as int) && (choose|k: int|
                    is_at(self.roster(), id@, k)) == i,
                None => !exists|k: int| is_at(self.roster(), id@, k),
            },
    {
        let mut i: usize = 0;
        while i < self.players.len()
            invariant
                i <= self.players.len(),
                distinct_ids(self.roster()),
                forall|k: int| 0 <= k < i ==> !is_at(self.roster(), id@, k),
            decreases self.players.len() - i,
        {
            if self.players[i].id == *id {
                proof {
                    lemma_roster_map_at(self.roster(), i as int);
                }
                return Some(i);
            }
            i += 1;
        }
        None
    }

    /// Adds a player, or replaces the record that has the same id.
    pub fn insert(&mut self, player: Player)
        requires
            old(self).wf(),
        ensures
            final(self).wf(),
            final(self).roster() == roster_insert(old(self).roster(), player@),
            final(self)@ == old(self)@.insert(player.id@, player@),
    {
        proof {
            lemma_roster_insert(self.roster(), player@);
        }
        match self.find(&player.id) {
            Some(i) => {
                assert(player_views(self.players@.update(i as int, player)) =~= self.roster().update(
                    i as int,
                    player@,
                ));
                self.players[i] = player;
            },
            None => {
                assert(player_views(self.players@.push(player)) =~= self.roster().push(player@));
                self.players.push(player);
            },
        }
    }

    /// Removes the player with the given id and returns its record.
    /// Removing an id that is not there changes nothing.
    pub fn remove(&mut self, id: &String) -> (removed: Option<Player>)
        requires
            old(self).wf(),
        ensures
            final(self).wf(),
            final(self).roster() == roster_remove(old(self).roster(), id@),
            final(self)@ == old(self)@.remove(id@),
            match removed {
                Some(p) => old(self)@.contains_key(id@) && p@ == old(self)@[id@],
                None => !old(self)@.contains_key(id@),
            },
    {
        proof {
            lemma_roster_remove(self.roster(), id@);
        }
        match self.find(id) {
            Some(i) => {
                proof {
                    lemma_roster_map_at(self.roster(), i as int);
                    assert(player_views(self.players@.remove(i as int)) =~= self.roster().remove(
                        i as int,
                    ));
                }
                Some(self.players.remove(i))
            },
            None => None,
        }
    }

    /// Moves the player with the given id to `(x, y)` and says whether
    /// there was such a player. An id that is not there is left out.
    pub fn update_position(&mut self, id: &String, x: u32, y: u32) -> (found: bool)
        requires
            old(self).wf(),
        ensures
            final(self).wf(),
            found == old(self)@.contains_key(id@),
            final(self).roster() == roster_move(old(self).roster(), id@, x, y),
            final(self)@ == moved(old(self)@, id@, x, y),
    {
        proof {
            lemma_roster_move(self.roster(), id@, x, y);
        }
        match self.find(id) {
            Some(i) => {
                let ghost before = self.roster();
                self.players[i].x = x;
                self.players[i].y = y;
                assert(self.roster() =~= before.update(i as int, before[i as int].moved_to(x, y)));
                true
            },
            None => false,
        }
    }

    /// Whether a player with the given id is registered.
    pub fn contains(&self, id: &String) -> (found: bool)
        requires
            self.wf(),
        ensures
            found == self@.contains_key(id@),
    {
        self.find(id).is_some()
    }

    /// A copy of the record with the given id.
    pub fn get(&self, id: &String) -> (found: Option<Player>)
        requires
            self.wf(),
        ensures
            match found {
                Some(p) => self@.contains_key(id@) && p@ == self@[id@],
                None => !self@.contains_key(id@),
            },
    {
        match self.find(id) {
            Some(i) => {
                proof {
                    lemma_roster_map_at(self.roster(), i as int);
                }
                Some(self.players[i].clone())
            },
            None => None,
        }
    }

    /// A copy of every record, in the order of admission.
    pub fn snapshot(&self) -> (players: Vec<Player>)
        ensures
            player_views(players@) == self.roster(),
    {
        clone_players(&self.players)
    }
}

// ---------------------------------------------------------------------
// Rosters and the mappings they list
// ---------------------------------------------------------------------

/// In a roster without repeated ids, the record at a position is the one
/// that the mapping gives for its id.
pub proof fn lemma_roster_map_at(r: Seq<PlayerView>, i: int)
    requires
        distinct_ids(r),
        0 <= i < r.len(),
    ensures
        roster_map(r).contains_key(r[i].id),
        roster_map(r)[r[i].id] == r[i],
        (choose|k: int| is_at(r, r[i].id, k)) == i,
{
    assert(is_at(r, r[i].id, i));
}

/// Putting a record in a roster inserts it in the mapping.
pub proof fn lemma_roster_insert(r: Seq<PlayerView>, p: PlayerView)
    requires
        distinct_ids(r),
    ensures
        distinct_ids(roster_insert(r, p)),
        roster_map(roster_insert(r, p)) == roster_map(r).insert(p.id, p),
{
    let after = roster_insert(r, p);
    if exists|i: int| is_at(r, p.id, i) {
        let at = choose|i: int| is_at(r, p.id, i);
        assert forall|id: Seq<char>| #[trigger]
            roster_map(after).contains_key(id) == roster_map(r).insert(p.id, p).contains_key(
                id,
            ) by {
            if roster_map(after).contains_key(id) {
                let k = choose|k: int| is_at(after, id, k);
                if k != at {
                    assert(is_at(r, id, k));
                }
            }
            if roster_map(r).contains_key(id) {
                let k = choose|k: int| is_at(r, id, k);
                assert(is_at(after, id, k));
            }
        }
        assert forall|id: Seq<char>| #[trigger]
            roster_map(after).contains_key(id) implies roster_map(after)[id] == roster_map(
            r,
        ).insert(p.id, p)[id] by {
            let k = choose|k: int| is_at(after, id, k);
            if k != at {
                lemma_roster_map_at(r, k);
            }
        }
    } else {
        assert forall|i: int, j: int| 0 <= i < j < after.len() implies after[i].id
            != after[j].id by {
            if j == r.len() {
                assert(!is_at(r, p.id, i));
            }
        }
        assert forall|id: Seq<char>| #[trigger]
            roster_map(after).contains_key(id) == roster_map(r).insert(p.id, p).contains_key(
                id,
            ) by {
            if roster_map(after).contains_key(id) {
                let k = choose|k: int| is_at(after, id, k);
                if k < r.len() {
                    assert(is_at(r, id, k));
                }
            }
            if roster_map(r).contains_key(id) {
                let k = choose|k: int| is_at(r, id, k);
                assert(is_at(after, id, k));
            }
            if id == p.id {
                assert(is_at(after, id, r.len() as int));
            }
        }
        assert forall|id: Seq<char>| #[trigger]
            roster_map(after).contains_key(id) implies roster_map(after)[id] == roster_map(
            r,
        ).insert(p.id, p)[id] by {
            let k = choose|k: int| is_at(after, id, k);
            if k < r.len() {
                lemma_roster_map_at(r, k);
            }
        }
    }
}

/// Taking a record out of a roster removes its id from the mapping.
pub proof fn lemma_roster_remove(r: Seq<PlayerView>, id: Seq<char>)
    requires
        distinct_ids(r),
    ensures
        distinct_ids(roster_remove(r, id)),
        roster_map(roster_remove(r, id)) == roster_map(r).remove(id),
{
    let after = roster_remove(r, id);
    if exists|i: int| is_at(r, id, i) {
        let at = choose|i: int| is_at(r, id, i);
        assert forall|other: Seq<char>| #[trigger]
            roster_map(after).contains_key(other) == roster_map(r).remove(id).contains_key(
                other,
            ) by {
            if roster_map(after).contains_key(other) {
                let k = choose|k: int| is_at(after, other, k);
                let ok = if k < at { k } else { k + 1 };
                assert(is_at(r, other, ok));
                if other == id {
                    lemma_roster_map_at(r, ok);
                }
            }
            if roster_map(r).remove(id).contains_key(other) {
                let k = choose|k: int| is_at(r, other, k);
                let nk = if k < at { k } else { k - 1 };
                assert(is_at(after, other, nk));
            }
        }
        assert forall|other: Seq<char>| #[trigger]
            roster_map(after).contains_key(other) implies roster_map(after)[other]
            == roster_map(r).remove(id)[other] by {
            let k = choose|k: int| is_at(after, other, k);
            let ok = if k < at { k } else { k + 1 };
            lemma_roster_map_at(r, ok);
        }
    }
}

/// Moving a record of a roster replaces the record in the mapping and
/// leaves a roster without the id as it was.
pub proof fn lemma_roster_move(r: Seq<PlayerView>, id: Seq<char>, x: u32, y: u32)
    requires
        distinct_ids(r),
    ensures
        distinct_ids(roster_move(r, id, x, y)),
        roster_map(roster_move(r, id, x, y)) == moved(roster_map(r), id, x, y),
{
    if exists|i: int| is_at(r, id, i) {
        let at = choose|i: int| is_at(r, id, i);
        lemma_roster_map_at(r, at);
        lemma_roster_insert(r, r[at].moved_to(x, y));
    }
}

// ---------------------------------------------------------------------
// Histories
// ---------------------------------------------------------------------

/// One step in the life of a registry.
pub enum RegistryOp {
    /// `insert` of this record.
    Admit(PlayerView),
    /// `remove` of this id.
    Remove(Seq<char>),
    /// `update_position` of this id to these coordinates.
    Move(Seq<char>, u32, u32),
}

/// The roster that one step leaves.
pub open spec fn roster_step(r: Seq<PlayerView>, op: RegistryOp) -> Seq<PlayerView> {
    match op {
        RegistryOp::Admit(p) => roster_insert(r, p),
        RegistryOp::Remove(id) => roster_remove(r, id),
        RegistryOp::Move(id, x, y) => roster_move(r, id, x, y),
    }
}

/// The roster of a registry that started empty and went through `ops`.
pub open spec fn roster_after(ops: Seq<RegistryOp>) -> Seq<PlayerView>
    decreases ops.len(),
{
    if ops.len() == 0 {
        Seq::empty()
    } else {
        roster_step(roster_after(ops.drop_last()), ops.last())
    }
}

/// Whether `id` is admitted at the end of `ops`: some step admitted it and
/// no later step removed it.
pub open spec fn admitted(ops: Seq<RegistryOp>, id: Seq<char>) -> bool {
    exists|i: int| admitted_at(ops, id, i)
}

/// Step `i` admitted `id`, and no step after it removed `id`.
pub open spec fn admitted_at(ops: Seq<RegistryOp>, id: Seq<char>, i: int) -> bool {
    &&& 0 <= i < ops.len()
    &&& ops[i] matches RegistryOp::Admit(p)
    &&& p.id == id
    &&& forall|j: int| i < j < ops.len() ==> ops[j] != RegistryOp::Remove(id)
}

/// Whatever sequence of admissions, removals and moves a registry goes
/// through, it holds one record for each id that is admitted at that moment
/// and no other record: its key set is the set of admitted ids.
pub proof fn law_keys_are_the_admitted_ids(ops: Seq<RegistryOp>)
    ensures
        distinct_ids(roster_after(ops)),
        forall|id: Seq<char>| #[trigger]
            roster_map(roster_after(ops)).contains_key(id) <==> admitted(ops, id),
    decreases ops.len(),
{
    let now = roster_after(ops);
    if ops.len() == 0 {
        assert forall|id: Seq<char>| #[trigger]
            roster_map(now).contains_key(id) <==> admitted(ops, id) by {
            if roster_map(now).contains_key(id) {
                let k = choose|k: int| is_at(now, id, k);
                assert(is_at(now, id, k));
            }
            if admitted(ops, id) {
                let i = choose|i: int| admitted_at(ops, id, i);
                assert(admitted_at(ops, id, i));
            }
        }
    } else {
        let earlier = ops.drop_last();
        let before = roster_after(earlier);
        let last = ops.len() - 1;
        law_keys_are_the_admitted_ids(earlier);
        match ops.last() {
            RegistryOp::Admit(p) => lemma_roster_insert(before, p),
            RegistryOp::Remove(gone) => lemma_roster_remove(before, gone),
            RegistryOp::Move(who, x, y) => lemma_roster_move(before, who, x, y),
        }
        assert forall|id: Seq<char>| #[trigger]
            roster_map(now).contains_key(id) <==> admitted(ops, id) by {
            assert(roster_map(before).contains_key(id) <==> admitted(earlier, id));
            if admitted(earlier, id) {
                let i = choose|i: int| admitted_at(earlier, id, i);
                assert(admitted_at(earlier, id, i));
                assert(earlier[i] == ops[i]);
                assert forall|j: int| i < j < earlier.len() implies ops[j]
                    != RegistryOp::Remove(id) by {
                    assert(earlier[j] == ops[j]);
                }
                if ops.last() != RegistryOp::Remove(id) {
                    assert(admitted_at(ops, id, i));
                }
            }
            if admitted(ops, id) {
                let i = choose|i: int| admitted_at(ops, id, i);
                assert(admitted_at(ops, id, i));
                if i < last {
                    assert(earlier[i] == ops[i]);
                    assert forall|j: int| i < j < earlier.len() implies earlier[j]
                        != RegistryOp::Remove(id) by {
                        assert(earlier[j] == ops[j]);
                    }
                    assert(admitted_at(earlier, id, i));
                    assert(ops[last] != RegistryOp::Remove(id));
                }
            }
            match ops.last() {
                RegistryOp::Admit(p) => {
                    if p.id == id {
                        assert(admitted_at(ops, id, last));
                    }
                },
                RegistryOp::Remove(gone) => {
                    if gone == id && admitted(ops, id) {
                        let i = choose|i: int| admitted_at(ops, id, i);
                        assert(admitted_at(ops, id, i));
                        assert(i < last ==> ops[last] != RegistryOp::Remove(id));
                    }
                },
                RegistryOp::Move(who, x, y) => {},
            }
        }
    }
}

/// Once a player has been removed, moving it finds nobody and leaves the
/// registry as the removal left it: a late position update does not bring
/// the player back.
pub proof fn law_removed_player_stays_removed(r: Seq<PlayerView>, id: Seq<char>, x: u32, y: u32)
    requires
        distinct_ids(r),
    ensures
        !roster_map(roster_remove(r, id)).contains_key(id),
        roster_move(roster_remove(r, id), id, x, y) == roster_remove(r, id),
        moved(roster_map(r).remove(id), id, x, y) == roster_map(r).remove(id),
{
    lemma_roster_remove(r, id);
    let after = roster_remove(r, id);
    if exists|i: int| is_at(after, id, i) {
        let k = choose|i: int| is_at(after, id, i);
        assert(is_at(after, id, k));
        assert(roster_map(after).contains_key(id));
    }
}

} // verus!

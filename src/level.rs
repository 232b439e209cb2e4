use vstd::prelude::*;
use crate::direction::Direction;
use crate::entity::{Entity, EntityKind};
use crate::events::{Events, MoveEntity, steppable};
use crate::tile::Tile;
use crate::tilemap::Tilemap;

verus! {

/// Whether an entity of kind `k` still has to reach a home.
pub open spec fn is_human_kind(k: EntityKind) -> bool {
    k == EntityKind::Human || k == EntityKind::HumanWithGoop
}

/// Number of entries of `s` that still have to reach a home.
pub open spec fn count_humans(s: Seq<(u32, Entity)>) -> nat
    decreases s.len(),
{
    if s.len() == 0 {
        0
    } else {
        count_humans(s.drop_last()) + if is_human_kind(s.last().1.kind) {
            1nat
        } else {
            0nat
        }
    }
}

pub proof fn lemma_count_humans_append(a: Seq<(u32, Entity)>, b: Seq<(u32, Entity)>)
    ensures
        count_humans(a + b) == count_humans(a) + count_humans(b),
    decreases b.len(),
{
    if b.len() > 0 {
        assert((a + b).drop_last() =~= a + b.drop_last());
        lemma_count_humans_append(a, b.drop_last());
    } else {
        assert(a + b =~= a);
    }
}

pub proof fn lemma_count_humans_single(e: (u32, Entity))
    ensures
        count_humans(seq![e]) == if is_human_kind(e.1.kind) {
            1nat
        } else {
            0nat
        },
{
    assert(seq![e].drop_last() =~= Seq::<(u32, Entity)>::empty());
    assert(seq![e].last() == e);
    assert(count_humans(Seq::<(u32, Entity)>::empty()) == 0);
}

pub proof fn lemma_count_humans_le_len(s: Seq<(u32, Entity)>)
    ensures
        count_humans(s) <= s.len(),
    decreases s.len(),
{
    if s.len() > 0 {
        lemma_count_humans_le_len(s.drop_last());
    }
}

/// Splits `s` around index `i` for counting.
pub proof fn lemma_count_humans_split(s: Seq<(u32, Entity)>, i: int)
    requires
        0 <= i < s.len(),
    ensures
        count_humans(s) == count_humans(s.subrange(0, i)) + (if is_human_kind(s[i].1.kind) {
            1nat
        } else {
            0nat
        }) + count_humans(s.subrange(i + 1, s.len() as int)),
{
    let a = s.subrange(0, i);
    let b = seq![s[i]];
    let c = s.subrange(i + 1, s.len() as int);
    assert(s =~= a + b + c);
    lemma_count_humans_append(a + b, c);
    lemma_count_humans_append(a, b);
    lemma_count_humans_single(s[i]);
}

pub proof fn lemma_count_humans_remove(s: Seq<(u32, Entity)>, i: int)
    requires
        0 <= i < s.len(),
    ensures
        count_humans(s.remove(i)) + (if is_human_kind(s[i].1.kind) {
            1nat
        } else {
            0nat
        }) == count_humans(s),
{
    lemma_count_humans_split(s, i);
    assert(s.remove(i) =~= s.subrange(0, i) + s.subrange(i + 1, s.len() as int));
    lemma_count_humans_append(s.subrange(0, i), s.subrange(i + 1, s.len() as int));
}

pub proof fn lemma_count_humans_update(s: Seq<(u32, Entity)>, i: int, e: (u32, Entity))
    requires
        0 <= i < s.len(),
    ensures
        count_humans(s.update(i, e)) + (if is_human_kind(s[i].1.kind) {
            1nat
        } else {
            0nat
        }) == count_humans(s) + (if is_human_kind(e.1.kind) {
            1nat
        } else {
            0nat
        }),
{
    let t = s.update(i, e);
    lemma_count_humans_split(s, i);
    lemma_count_humans_split(t, i);
    assert(t.subrange(0, i) =~= s.subrange(0, i));
    assert(t.subrange(i + 1, t.len() as int) =~= s.subrange(i + 1, s.len() as int));
}

/// Whether two coordinate pairs name the same cell.
pub open spec fn same_cell(a: [isize; 2], b: [isize; 2]) -> bool {
    a[0] == b[0] && a[1] == b[1]
}

/// Whether some entity of `s` stands on `pos`.
pub open spec fn occupied(s: Seq<(u32, Entity)>, pos: [isize; 2]) -> bool {
    exists|i: int| 0 <= i < s.len() && same_cell(#[trigger] s[i].1.pos, pos)
}

/// Whether `s` holds an entry with identifier `id`.
pub open spec fn has_id(s: Seq<(u32, Entity)>, id: u32) -> bool {
    exists|i: int| 0 <= i < s.len() && (#[trigger] s[i]).0 == id
}

/// The entry of `s` with identifier `id` (meaningful when `has_id`).
pub open spec fn entry_of(s: Seq<(u32, Entity)>, id: u32) -> Entity {
    s[choose|i: int| 0 <= i < s.len() && (#[trigger] s[i]).0 == id].1
}

/// Identifiers strictly increase along `s`, so each occurs once.
pub open spec fn ids_ordered(s: Seq<(u32, Entity)>) -> bool {
    forall|i: int, j: int| 0 <= i < j < s.len() ==> (#[trigger] s[i]).0 < (#[trigger] s[j]).0
}

/// Every pending move starts inside the grid.
pub open spec fn moves_in_bounds(tiles: Tilemap, moves: Seq<MoveEntity>) -> bool {
    forall|i: int| 0 <= i < moves.len() ==> tiles.in_bounds(#[trigger] moves[i].from)
}

/// No two entities of `s` share a cell.
pub open spec fn cells_distinct(s: Seq<(u32, Entity)>) -> bool {
    forall|i: int, j: int|
        0 <= i < j < s.len() ==> !same_cell((#[trigger] s[i]).1.pos, (#[trigger] s[j]).1.pos)
}

/// Identifiers are ordered and below `next_id`, every entity stands inside
/// the grid, no two share a cell, and the player `player_id` is among the
/// entities.
pub open spec fn entities_ok(s: Seq<(u32, Entity)>, player_id: u32, next_id: u32, tiles: Tilemap) -> bool {
    &&& ids_ordered(s)
    &&& cells_distinct(s)
    &&& forall|i: int|
        0 <= i < s.len() ==> (#[trigger] s[i]).0 < next_id && tiles.in_bounds(s[i].1.pos)
    &&& exists|i: int|
        0 <= i < s.len() && (#[trigger] s[i]).0 == player_id && s[i].1.kind == EntityKind::Player
}

pub proof fn lemma_entities_remove(
    s: Seq<(u32, Entity)>,
    i: int,
    player_id: u32,
    next_id: u32,
    tiles: Tilemap,
)
    requires
        entities_ok(s, player_id, next_id, tiles),
        0 <= i < s.len(),
        s[i].0 != player_id,
    ensures
        entities_ok(s.remove(i), player_id, next_id, tiles),
{
    let t = s.remove(i);
    assert(forall|j: int| 0 <= j < t.len() ==> #[trigger] t[j] == if j < i { s[j] } else { s[j + 1] });
    assert forall|a: int, b: int| 0 <= a < b < t.len() implies (#[trigger] t[a]).0 < (#[trigger] t[b]).0 by {
        let a2 = if a < i { a } else { a + 1 };
        let b2 = if b < i { b } else { b + 1 };
        assert(s[a2].0 < s[b2].0);
    }
    assert forall|a: int, b: int| 0 <= a < b < t.len() implies !same_cell((#[trigger] t[a]).1.pos, (#[trigger] t[b]).1.pos) by {
        let a2 = if a < i { a } else { a + 1 };
        let b2 = if b < i { b } else { b + 1 };
        assert(!same_cell(s[a2].1.pos, s[b2].1.pos));
    }
    let w = choose|j: int|
        0 <= j < s.len() && (#[trigger] s[j]).0 == player_id && s[j].1.kind == EntityKind::Player;
    let w2 = if w < i { w } else { w - 1 };
    assert(t[w2] == s[w]);
}

/// Only the player's entry carries the player's identifier.
pub proof fn lemma_not_player(s: Seq<(u32, Entity)>, i: int, player_id: u32, next_id: u32, tiles: Tilemap)
    requires
        entities_ok(s, player_id, next_id, tiles),
        0 <= i < s.len(),
        s[i].1.kind != EntityKind::Player,
    ensures
        s[i].0 != player_id,
{
    let w = choose|j: int|
        0 <= j < s.len() && (#[trigger] s[j]).0 == player_id && s[j].1.kind == EntityKind::Player;
    if i < w {
        assert(s[i].0 < s[w].0);
    } else if w < i {
        assert(s[w].0 < s[i].0);
    }
}

pub proof fn lemma_entities_update(
    s: Seq<(u32, Entity)>,
    i: int,
    e: Entity,
    player_id: u32,
    next_id: u32,
    tiles: Tilemap,
)
    requires
        entities_ok(s, player_id, next_id, tiles),
        0 <= i < s.len(),
        tiles.in_bounds(e.pos),
        s[i].0 == player_id ==> e.kind == EntityKind::Player,
        forall|j: int| 0 <= j < s.len() && j != i ==> !same_cell(#[trigger] s[j].1.pos, e.pos),
    ensures
        entities_ok(s.update(i, (s[i].0, e)), player_id, next_id, tiles),
{
    let t = s.update(i, (s[i].0, e));
    assert forall|a: int, b: int| 0 <= a < b < t.len() implies (#[trigger] t[a]).0 < (#[trigger] t[b]).0 by {
        assert(s[a].0 < s[b].0);
    }
    assert forall|a: int, b: int| 0 <= a < b < t.len() implies !same_cell((#[trigger] t[a]).1.pos, (#[trigger] t[b]).1.pos) by {
        if a != i && b != i {
            assert(!same_cell(s[a].1.pos, s[b].1.pos));
        } else if a == i {
            assert(!same_cell(s[b].1.pos, e.pos));
        } else {
            assert(!same_cell(s[a].1.pos, e.pos));
        }
    }
    let w = choose|j: int|
        0 <= j < s.len() && (#[trigger] s[j]).0 == player_id && s[j].1.kind == EntityKind::Player;
    assert(t[w].0 == player_id && t[w].1.kind == EntityKind::Player);
}

/// The state of a level at one moment: the unit that undo restores.
#[derive(Clone, Debug)]
pub struct LevelData {
    pub entities: Vec<(u32, Entity)>,
    pub active_events: Events,
    pub tiles: Tilemap,
    pub n_humans: usize,
    pub has_input: bool,
}

impl LevelData {
    /// The invariant of a level state whose player has identifier
    /// `player_id` and whose identifiers are all below `next_id`.
    pub open spec fn wf(&self, player_id: u32, next_id: u32) -> bool {
        &&& self.tiles.wf()
        &&& entities_ok(self.entities@, player_id, next_id, self.tiles)
        &&& moves_in_bounds(self.tiles, self.active_events.moves@)
        &&& self.n_humans == count_humans(self.entities@)
    }

    /// Whether nothing can enter `pos`: it lies outside the grid, holds a
    /// wall, or holds an entity.
    pub open spec fn is_solid(&self, pos: [isize; 2]) -> bool {
        ||| !self.tiles.in_bounds(pos)
        ||| self.tiles.tile_at(pos) is Wall
        ||| occupied(self.entities@, pos)
    }

    /// The index of the entity with identifier `id`.
    pub fn entity_index(&self, id: u32) -> (r: Option<usize>)
        ensures
            match r {
                Some(i) => i < self.entities@.len() && self.entities@[i as int].0 == id,
                None => !has_id(self.entities@, id),
            },
    {
        let mut i: usize = 0;
        while i < self.entities.len()
            invariant
                i <= self.entities@.len(),
                forall|j: int| 0 <= j < i ==> (#[trigger] self.entities@[j]).0 != id,
            decreases self.entities@.len() - i,
        {
            if self.entities[i].0 == id {
                return Some(i);
            }
            i += 1;
        }
        None
    }

    /// The index of the first entity standing on `pos`.
    pub fn entity_at(&self, pos: [isize; 2]) -> (r: Option<usize>)
        ensures
            match r {
                Some(i) => i < self.entities@.len() && same_cell(
                    self.entities@[i as int].1.pos,
                    pos,
                ),
                None => !occupied(self.entities@, pos),
            },
    {
        let mut i: usize = 0;
        while i < self.entities.len()
            invariant
                i <= self.entities@.len(),
                forall|j: int|
                    0 <= j < i ==> !same_cell(#[trigger] self.entities@[j].1.pos, pos),
            decreases self.entities@.len() - i,
        {
            let p = self.entities[i].1.pos;
            if p[0] == pos[0] && p[1] == pos[1] {
                return Some(i);
            }
            i += 1;
        }
        None
    }

    /// A copy of this state, equal to it.
    pub fn snapshot(&self) -> (r: LevelData)
        ensures
            r.entities@ == self.entities@,
            r.active_events.moves@ == self.active_events.moves@,
            r.tiles.width == self.tiles.width,
            r.tiles.height == self.tiles.height,
            r.tiles.buffer@ == self.tiles.buffer@,
            r.n_humans == self.n_humans,
            r.has_input == self.has_input,
    {
        LevelData {
            entities: copy_vec(&self.entities),
            active_events: Events { moves: copy_vec(&self.active_events.moves) },
            tiles: Tilemap {
                width: self.tiles.width,
                height: self.tiles.height,
                buffer: copy_vec(&self.tiles.buffer),
            },
            n_humans: self.n_humans,
            has_input: self.has_input,
        }
    }
}

/// An element-by-element copy of `v`.
pub fn copy_vec<T: Copy>(v: &Vec<T>) -> (r: Vec<T>)
    ensures
        r@ == v@,
{
    let mut r: Vec<T> = Vec::new();
    let mut i: usize = 0;
    while i < v.len()
        invariant
            i <= v@.len(),
            r@ == v@.subrange(0, i as int),
        decreases v@.len() - i,
    {
        r.push(v[i]);
        i += 1;
        assert(r@ =~= v@.subrange(0, i as int));
    }
    assert(r@ =~= v@);
    r
}

/// A level being played: its live state, the snapshots that undo
/// restores, whether it has been won, and a counter that grows with every
/// change of a tile so that cached tile graphics know when to rebuild.
#[derive(Clone, Debug)]
pub struct Level {
    pub n_tile_changes: u32,
    pub entity_id_ctr: u32,
    pub has_won: bool,
    pub data: LevelData,
    pub undo_stack: Vec<LevelData>,
    pub player_id: u32,
}

/// What `Level::input` does: nothing while the player already has a move
/// pending; otherwise it saves the state for undo and queues the player's
/// move, a friction push unless the player stands on ice.
pub open spec fn input_effect(a: Level, b: Level, d: Direction) -> bool {
    if a.player_pending() {
        b == a
    } else {
        let p = a.player();
        &&& b.undo_stack@ == a.undo_stack@.push(a.data)
        &&& b.data.entities@ == a.data.entities@
        &&& b.data.tiles.width == a.data.tiles.width
        &&& b.data.tiles.height == a.data.tiles.height
        &&& b.data.tiles.buffer@ == a.data.tiles.buffer@
        &&& b.data.n_humans == a.data.n_humans
        &&& b.data.has_input
        &&& b.data.active_events.moves@ == a.data.active_events.moves@.push(
            (MoveEntity {
                is_friction_push: a.data.tiles.tile_at(p.pos) != Tile::Ice,
                entity_id: a.player_id,
                from: p.pos,
                direction: d,
            }),
        )
        &&& b.n_tile_changes == a.n_tile_changes
        &&& b.entity_id_ctr == a.entity_id_ctr
        &&& b.has_won == a.has_won
        &&& b.player_id == a.player_id
    }
}

/// What `Level::undo` does: with an empty history nothing, and `r` is false;
/// otherwise the latest snapshot replaces the live state, and `r` is true.
pub open spec fn undo_effect(a: Level, b: Level, r: bool) -> bool {
    if a.undo_stack@.len() == 0 {
        !r && b == a
    } else {
        &&& r
        &&& b.data == a.undo_stack@.last()
        &&& b.undo_stack@ == a.undo_stack@.drop_last()
        &&& b.n_tile_changes == a.n_tile_changes
        &&& b.entity_id_ctr == a.entity_id_ctr
        &&& b.has_won == a.has_won
        &&& b.player_id == a.player_id
    }
}

impl Level {
    /// The live state and every saved state are well formed, with the same
    /// player and identifiers below the next one to hand out.
    pub open spec fn wf(&self) -> bool {
        &&& self.data.wf(self.player_id, self.entity_id_ctr)
        &&& forall|k: int|
            0 <= k < self.undo_stack@.len() ==> (#[trigger] self.undo_stack@[k]).wf(
                self.player_id,
                self.entity_id_ctr,
            )
    }

    /// Whether a move of the player is queued.
    pub open spec fn player_pending(&self) -> bool {
        exists|i: int|
            0 <= i < self.data.active_events.moves@.len()
                && (#[trigger] self.data.active_events.moves@[i]).entity_id == self.player_id
    }

    /// The player entity.
    pub open spec fn player(&self) -> Entity {
        entry_of(self.data.entities@, self.player_id)
    }

    pub fn width(&self) -> (r: usize)
        ensures
            r == self.data.tiles.width,
    {
        self.data.tiles.width
    }

    pub fn height(&self) -> (r: usize)
        ensures
            r == self.data.tiles.height,
    {
        self.data.tiles.height
    }

    /// Whether nothing can enter `pos`.
    pub fn tile_is_solid(&self, pos: [isize; 2]) -> (r: bool)
        requires
            self.data.tiles.wf(),
        ensures
            r == self.data.is_solid(pos),
    {
        if pos[0] < 0 || pos[0] as usize >= self.width() || pos[1] < 0 || pos[1] as usize
            >= self.height() {
            return true;
        }
        match self.data.tiles.get_tile(pos) {
            Some(Tile::Wall(_)) => return true,
            _ => (),
        }
        self.data.entity_at(pos).is_some()
    }

    /// Queues a move of the player in direction `input`, saving the state
    /// for undo first; ignored while the player already has a move queued.
    pub fn input(&mut self, input: Direction)
        requires
            old(self).wf(),
        ensures
            final(self).wf(),
            input_effect(*old(self), *final(self), input),
    {
        let mut i: usize = 0;
        while i < self.data.active_events.moves.len()
            invariant
                *self == *old(self),
                self.wf(),
                i <= self.data.active_events.moves@.len(),
                forall|j: int|
                    0 <= j < i ==> (#[trigger] self.data.active_events.moves@[j]).entity_id
                        != self.player_id,
            decreases self.data.active_events.moves@.len() - i,
        {
            if self.data.active_events.moves[i].entity_id == self.player_id {
                return;
            }
            i += 1;
        }
        let ghost s = self.data.entities@;
        let idx = match self.data.entity_index(self.player_id) {
            Some(idx) => idx,
            None => {
                proof {
                    let w = choose|i: int|
                        0 <= i < s.len() && (#[trigger] s[i]).0 == self.player_id && s[i].1.kind
                            == EntityKind::Player;
                    assert(s[w].0 == self.player_id);
                }
                return;
            },
        };
        proof {
            lemma_entry_of_index(s, idx as int);
        }
        let pos = self.data.entities[idx].1.pos;
        let is_friction_push = match self.data.tiles.get_tile(pos) {
            Some(Tile::Ice) => false,
            _ => true,
        };
        let mut saved = self.data.snapshot();
        std::mem::swap(&mut self.data, &mut saved);
        self.undo_stack.push(saved);
        self.data.has_input = true;
        self.data.active_events.moves.push(
            MoveEntity { is_friction_push, entity_id: self.player_id, from: pos, direction: input },
        );
    }

    /// Restores the latest saved state; false when there is none.
    pub fn undo(&mut self) -> (r: bool)
        requires
            old(self).wf(),
        ensures
            final(self).wf(),
            undo_effect(*old(self), *final(self), r),
    {
        if self.undo_stack.len() == 0 {
            return false;
        }
        match self.undo_stack.pop() {
            Some(saved) => {
                self.data = saved;
                true
            },
            None => false,
        }
    }
}

/// In a list with ordered identifiers, the entry found at index `i` is the
/// entry of its identifier.
pub proof fn lemma_entry_of_index(s: Seq<(u32, Entity)>, i: int)
    requires
        ids_ordered(s),
        0 <= i < s.len(),
    ensures
        has_id(s, s[i].0),
        entry_of(s, s[i].0) == s[i].1,
{
    let id = s[i].0;
    assert(s[i].0 == id);
    let c = choose|j: int| 0 <= j < s.len() && (#[trigger] s[j]).0 == id;
    if c < i {
        assert(s[c].0 < s[i].0);
    } else if c > i {
        assert(s[i].0 < s[c].0);
    }
}

} // verus!

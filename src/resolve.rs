use vstd::prelude::*;
use crate::entity::{Entity, EntityKind, goopified};
use crate::events::{Animation, AnimationMoveKind, Events, MoveEntity, at, dest, step};
use crate::level::{
    cells_distinct,
    ids_ordered,
    Level, LevelData, has_id, is_human_kind, lemma_count_humans_remove, lemma_count_humans_update,
    lemma_entities_remove, lemma_entities_update, lemma_not_player, moves_in_bounds, occupied,
    same_cell,
};
use crate::sounds::SoundId;
use crate::tile::{Tile, WallKind};
use crate::tilemap::Tilemap;

verus! {

/// Upper bound on the steps of one push resolution. Resolution of any
/// configuration that settles at all takes far fewer; a configuration in
/// which entries keep trading places at the back of the list is cut off
/// here, and the moves left unresolved are executed as they stand.
pub const RESOLUTION_STEP_LIMIT: usize = 1000000;

/// What a phase of the engine leaves alone.
pub open spec fn phase_frame(a: Level, b: Level) -> bool {
    &&& b.undo_stack == a.undo_stack
    &&& b.player_id == a.player_id
    &&& b.entity_id_ctr == a.entity_id_ctr
    &&& b.data.tiles.width == a.data.tiles.width
    &&& b.data.tiles.height == a.data.tiles.height
    &&& b.data.active_events == a.data.active_events
    &&& b.data.has_input == a.data.has_input
}

/// Every entity of `b` already existed in `a`: no identifier is new.
pub open spec fn ids_kept(a: Seq<(u32, Entity)>, b: Seq<(u32, Entity)>) -> bool {
    forall|j: int| 0 <= j < b.len() ==> has_id(a, #[trigger] b[j].0)
}

/// `b` extends `a`.
pub open spec fn extends<T>(a: Seq<T>, b: Seq<T>) -> bool {
    a.len() <= b.len() && b.subrange(0, a.len() as int) =~= a
}

/// The first move of `moves` that starts on `pos`.
fn first_move_from(moves: &Vec<MoveEntity>, pos: [isize; 2]) -> (r: Option<usize>)
    ensures
        match r {
            Some(i) => i < moves@.len() && same_cell(moves@[i as int].from, pos) && forall|j: int|
                0 <= j < i ==> !same_cell(#[trigger] moves@[j].from, pos),
            None => forall|j: int|
                0 <= j < moves@.len() ==> !same_cell(#[trigger] moves@[j].from, pos),
        },
{
    let mut i: usize = 0;
    while i < moves.len()
        invariant
            i <= moves@.len(),
            forall|j: int| 0 <= j < i ==> !same_cell(#[trigger] moves@[j].from, pos),
        decreases moves@.len() - i,
    {
        let f = moves[i].from;
        if f[0] == pos[0] && f[1] == pos[1] {
            return Some(i);
        }
        i += 1;
    }
    None
}

/// Whether a mover of kind `a` feeds a target of kind `b`: a goop-covered
/// human and a cake meet, whichever of the two moves.
pub open spec fn feeds(a: EntityKind, b: EntityKind) -> bool {
    (a == EntityKind::HumanWithGoop && b == EntityKind::Cake) || (a == EntityKind::Cake && b
        == EntityKind::HumanWithGoop)
}

/// The target of a feeding after it: a plain human, where it stood.
pub open spec fn fed(e: Entity) -> Entity {
    Entity { pos: e.pos, kind: EntityKind::Human, is_sliding: e.is_sliding }
}

/// The tile that a mover of kind `k` leaves on `t` when it enters it: a
/// bucket of goop spills onto ice and floor; nothing else changes a tile.
pub open spec fn tile_after(k: EntityKind, t: Tile) -> Tile {
    if k == EntityKind::BucketOfGoop {
        match t {
            Tile::Ice => Tile::IceWithGoop,
            Tile::Floor => Tile::FloorWithGoop,
            _ => t,
        }
    } else {
        t
    }
}

pub open spec fn is_goop(t: Tile) -> bool {
    t is IceWithGoop || t is FloorWithGoop
}

/// Whether entity `e` cannot enter `to`: the cell is solid, or `e` is a
/// bucket of goop and the cell is a home.
pub open spec fn blocked(d: LevelData, e: Entity, to: [isize; 2]) -> bool {
    d.is_solid(to) || (e.kind == EntityKind::BucketOfGoop && (d.tiles.tile_at(to) is Home
        || d.tiles.tile_at(to) is SadHome))
}

/// Entity `e` after entering `to`, whose tile is now `t`: goop covers it,
/// and it slides on when `t` is ice.
pub open spec fn moved(e: Entity, to: [isize; 2], t: Tile) -> Entity {
    Entity {
        pos: to,
        kind: if is_goop(t) {
            goopified(e.kind)
        } else {
            e.kind
        },
        is_sliding: t == Tile::Ice,
    }
}

/// Whether `a` is a standard move that ends on `pos`.
pub open spec fn arrives_at(a: Animation, pos: [isize; 2]) -> bool {
    match a {
        Animation::Move { to, kind, .. } => kind == AnimationMoveKind::Standard && same_cell(to, pos),
        _ => false,
    }
}

/// Takes out of `animations` the first standard move that ends on `pos`,
/// and returns where it started and whether it accelerated.
fn take_arrival(animations: &mut Vec<Animation>, pos: [isize; 2]) -> (r: Option<([isize; 2], bool)>)
    ensures
        match r {
            Some((from, accelerate)) => exists|j: int|
                0 <= j < old(animations)@.len() && arrives_at(old(animations)@[j], pos) && (forall|
                    l: int,
                | 0 <= l < j ==> !arrives_at(#[trigger] old(animations)@[l], pos))
                    && final(animations)@ == old(animations)@.remove(j) && (old(animations)@[j]
                    matches Animation::Move { from: f, accelerate: a, .. } && f == from && a
                    == accelerate),
            None => final(animations)@ == old(animations)@ && forall|l: int|
                0 <= l < old(animations)@.len() ==> !arrives_at(#[trigger] old(animations)@[l], pos),
        },
{
    let mut i: usize = 0;
    while i < animations.len()
        invariant
            animations@ == old(animations)@,
            i <= animations@.len(),
            forall|l: int| 0 <= l < i ==> !arrives_at(#[trigger] animations@[l], pos),
        decreases animations@.len() - i,
    {
        match animations[i] {
            Animation::Move { from, to, accelerate, kind: AnimationMoveKind::Standard, .. } => {
                if to[0] == pos[0] && to[1] == pos[1] {
                    animations.remove(i);
                    return Some((from, accelerate));
                }
            },
            _ => {},
        }
        i += 1;
    }
    None
}

/// The tile that an entity of kind `k` turns `t` into when it settles on
/// it, if any: a human fills a home, a cake cheers up a sad home.
pub open spec fn consumed_tile(k: EntityKind, t: Tile) -> Option<Tile> {
    if k == EntityKind::Human && t == Tile::Home {
        Some(Tile::Wall(WallKind::HappyHome))
    } else if k == EntityKind::Cake && t == Tile::SadHome {
        Some(Tile::Home)
    } else {
        None
    }
}

/// No entity stands where it would be used up: no human on a home, no cake
/// on a sad home.
pub open spec fn settled(d: LevelData) -> bool {
    forall|j: int|
        0 <= j < d.entities@.len() ==> consumed_tile(
            (#[trigger] d.entities@[j]).1.kind,
            d.tiles.tile_at(d.entities@[j].1.pos),
        ) is None
}

/// Whether `id` is among `ids`.
pub open spec fn marked(ids: Seq<u32>, id: u32) -> bool {
    exists|r: int| 0 <= r < ids.len() && ids[r] == id
}

/// How the win state follows the count of humans: `b` has won exactly when
/// `a` had, or the count dropped and reached zero on the way to `b`.
pub open spec fn win_follows(a: Level, b: Level) -> bool {
    &&& b.data.n_humans <= a.data.n_humans
    &&& b.has_won == (a.has_won || (b.data.n_humans == 0 && b.data.n_humans < a.data.n_humans))
}

/// A tile change that a bucket of goop makes: ice or floor gets goop.
pub open spec fn spilt(a: Tile, b: Tile) -> bool {
    a == b || (a == Tile::Ice && b == Tile::IceWithGoop) || (a == Tile::Floor && b
        == Tile::FloorWithGoop)
}

/// The tile changes that using up entities makes: a sad home becomes a
/// home, a home a satisfied home.
pub open spec fn homed(a: Tile, b: Tile) -> bool {
    ||| a == b
    ||| a == Tile::SadHome && b == Tile::Home
    ||| a == Tile::Home && b == Tile::Wall(WallKind::HappyHome)
}

/// The tile changes that one tick can make to a cell.
pub open spec fn tile_change_ok(a: Tile, b: Tile) -> bool {
    spilt(a, b) || homed(a, b)
}

/// After scanning the first `i` entities of `s`, every cell of `cur` that
/// differs from `start` is the cell of one of them, and every cell is
/// within `homed` of `start`.
#[verifier::opaque]
pub open spec fn scanned_cells(start: Seq<Tile>, cur: Tilemap, s: Seq<(u32, Entity)>, i: int) -> bool {
    &&& cur.buffer@.len() == start.len()
    &&& forall|c: int| 0 <= c < start.len() ==> homed(start[c], #[trigger] cur.buffer@[c])
    &&& forall|c: int|
        0 <= c < start.len() && #[trigger] cur.buffer@[c] != start[c] ==> exists|l: int|
            0 <= l < i && cur.index_of(s[l].1.pos) == c
}

pub proof fn lemma_scanned_start(start: Seq<Tile>, cur: Tilemap, s: Seq<(u32, Entity)>)
    requires
        cur.buffer@ == start,
    ensures
        scanned_cells(start, cur, s, 0),
{
    reveal(scanned_cells);
}

pub proof fn lemma_scanned_weaken(start: Seq<Tile>, cur: Tilemap, s: Seq<(u32, Entity)>, i: int)
    requires
        scanned_cells(start, cur, s, i),
    ensures
        scanned_cells(start, cur, s, i + 1),
        cur.buffer@.len() == start.len(),
        forall|c: int| 0 <= c < start.len() ==> homed(start[c], #[trigger] cur.buffer@[c]),
{
    reveal(scanned_cells);
    assert forall|c: int|
        0 <= c < start.len() && #[trigger] cur.buffer@[c] != start[c] implies exists|l: int|
            0 <= l < i + 1 && cur.index_of(s[l].1.pos) == c by {
        let l = choose|l: int| 0 <= l < i && cur.index_of(s[l].1.pos) == c;
    }
}

/// Using up entity number `i` of `s`, which stands apart from the others,
/// changes its cell from what it was at the start of the scan.
pub proof fn lemma_homed_step(
    start: Seq<Tile>,
    t0: Tilemap,
    t1: Tilemap,
    s: Seq<(u32, Entity)>,
    i: int,
    nt: Tile,
)
    requires
        t0.wf(),
        0 <= i < s.len(),
        forall|l: int| 0 <= l < s.len() ==> t0.in_bounds(#[trigger] s[l].1.pos),
        forall|a: int, b: int| 0 <= a < b < s.len() ==> !same_cell((#[trigger] s[a]).1.pos, (#[trigger] s[b]).1.pos),
        scanned_cells(start, t0, s, i),
        consumed_tile_is(t0.tile_at(s[i].1.pos), nt),
        t1.width == t0.width,
        t1.buffer@ == t0.buffer@.update(t0.index_of(s[i].1.pos), nt),
    ensures
        scanned_cells(start, t1, s, i + 1),
        0 <= t0.index_of(s[i].1.pos) < start.len(),
        t0.buffer@[t0.index_of(s[i].1.pos)] == start[t0.index_of(s[i].1.pos)],
        t1.buffer@.len() == start.len(),
        forall|c: int| 0 <= c < start.len() ==> homed(start[c], #[trigger] t1.buffer@[c]),
{
    reveal(scanned_cells);
    let p = s[i].1.pos;
    let ci = t0.index_of(p);
    t0.lemma_index_in_range(p);
    if t0.buffer@[ci] != start[ci] {
        let l = choose|l: int| 0 <= l < i && t0.index_of(s[l].1.pos) == ci;
        assert(!same_cell(s[l].1.pos, p));
        t0.lemma_index_injective(s[l].1.pos, p);
    }
    assert forall|c: int| 0 <= c < start.len() implies homed(start[c], #[trigger] t1.buffer@[c]) by {
        assert(homed(start[c], t0.buffer@[c]));
    }
    assert forall|c: int|
        0 <= c < start.len() && #[trigger] t1.buffer@[c] != start[c] implies exists|l: int|
            0 <= l < i + 1 && t1.index_of(s[l].1.pos) == c by {
        if c == ci {
            assert(t1.index_of(s[i].1.pos) == c);
        } else {
            let l = choose|l: int| 0 <= l < i && t0.index_of(s[l].1.pos) == c;
            assert(t1.index_of(s[l].1.pos) == c);
        }
    }
}

/// Whether `nt` is what using up an entity makes of tile `t`.
pub open spec fn consumed_tile_is(t: Tile, nt: Tile) -> bool {
    (t == Tile::SadHome && nt == Tile::Home) || (t == Tile::Home && nt == Tile::Wall(WallKind::HappyHome))
}

/// `b` is `a` with goop spilt on cell `c`, which held ice or floor.
pub open spec fn spilt_at(a: Seq<Tile>, b: Seq<Tile>, c: int) -> bool {
    &&& 0 <= c < a.len()
    &&& (a[c] == Tile::Ice || a[c] == Tile::Floor)
    &&& b == a.update(c, tile_after(EntityKind::BucketOfGoop, a[c]))
}

/// How many of the first `n` cells differ between `a` and `b`.
pub open spec fn n_changed(a: Seq<Tile>, b: Seq<Tile>, n: int) -> nat
    decreases n,
{
    if n <= 0 {
        0
    } else {
        n_changed(a, b, n - 1) + if a[n - 1] != b[n - 1] {
            1nat
        } else {
            0nat
        }
    }
}

/// How many cells differ between `a` and `b`.
pub open spec fn changes(a: Seq<Tile>, b: Seq<Tile>) -> nat {
    n_changed(a, b, a.len() as int)
}

/// Counter `x` moved on by `n`, wrapping around.
pub open spec fn bumped(x: u32, n: nat) -> u32 {
    ((x as nat + n) % 0x1_0000_0000) as u32
}

pub proof fn lemma_bumped_step(x: u32, n: nat)
    ensures
        bumped(x, n + 1) == bumped(x, n).wrapping_add(1),
{
    let k = x as nat + n;
    let m = 0x1_0000_0000nat;
    assert((k + 1) % m == if k % m + 1 == m { 0 } else { k % m + 1 }) by (nonlinear_arith)
        requires m == 0x1_0000_0000nat;
}

/// Changing cell `c`, which still had its starting tile, adds one change.
pub proof fn lemma_changed_update(a: Seq<Tile>, b: Seq<Tile>, c: int, v: Tile, n: int)
    requires
        a.len() == b.len(),
        0 <= c < a.len(),
        0 <= n <= a.len(),
        b[c] == a[c],
        v != a[c],
    ensures
        n_changed(a, b.update(c, v), n) == n_changed(a, b, n) + if c < n {
            1nat
        } else {
            0nat
        },
    decreases n,
{
    if n > 0 {
        lemma_changed_update(a, b, c, v, n - 1);
    }
}

pub proof fn lemma_changed_same(a: Seq<Tile>)
    ensures
        changes(a, a) == 0,
{
    assert forall|n: int| 0 <= n <= a.len() implies n_changed(a, a, n) == 0 by {
        lemma_changed_same_n(a, n);
    }
}

proof fn lemma_changed_same_n(a: Seq<Tile>, n: int)
    requires
        0 <= n <= a.len(),
    ensures
        n_changed(a, a, n) == 0,
    decreases n,
{
    if n > 0 {
        lemma_changed_same_n(a, n - 1);
    }
}

/// The cue `id` when `b` holds, else nothing.
pub open spec fn cue_if(b: bool, id: SoundId) -> Seq<SoundId> {
    if b {
        seq![id]
    } else {
        Seq::<SoundId>::empty()
    }
}

/// The state that one tick works on, as values: the entities, the tiles,
/// the tile counter, the count of humans, the win state, the animation
/// feed, the working list of moves, the moves left for the next tick, and
/// whether anything was pushed.
pub struct Tick {
    pub entities: Seq<(u32, Entity)>,
    pub buffer: Seq<Tile>,
    pub n_tile_changes: u32,
    pub n_humans: int,
    pub has_won: bool,
    pub animations: Seq<Animation>,
    pub moves: Seq<MoveEntity>,
    pub next: Seq<MoveEntity>,
    pub pushed: bool,
}

/// The tick state of level `l` with the given feed, lists and push flag.
pub open spec fn snap(
    l: Level,
    animations: Seq<Animation>,
    moves: Seq<MoveEntity>,
    next: Seq<MoveEntity>,
    pushed: bool,
) -> Tick {
    Tick {
        entities: l.data.entities@,
        buffer: l.data.tiles.buffer@,
        n_tile_changes: l.n_tile_changes,
        n_humans: l.data.n_humans as int,
        has_won: l.has_won,
        animations,
        moves,
        next,
        pushed,
    }
}

/// The tile at `p`, on a grid `w` wide and `h` high, if `p` is inside.
pub open spec fn tile_in(st: Tick, w: int, h: int, p: [isize; 2]) -> Option<Tile> {
    if 0 <= p[0] < w && 0 <= p[1] < h {
        Some(st.buffer[p[0] + p[1] * w])
    } else {
        None
    }
}

/// Whether `i` is the first entity of `s` standing on `p`.
pub open spec fn first_at(s: Seq<(u32, Entity)>, p: [isize; 2], i: int) -> bool {
    0 <= i < s.len() && same_cell(s[i].1.pos, p) && forall|j: int|
        0 <= j < i ==> !same_cell(#[trigger] s[j].1.pos, p)
}

/// The first entity of `s` standing on `p`.
pub open spec fn entity_on(s: Seq<(u32, Entity)>, p: [isize; 2]) -> Option<int> {
    if exists|i: int| first_at(s, p, i) {
        Some(choose|i: int| first_at(s, p, i))
    } else {
        None
    }
}

/// Whether `i` is the first entry of `s` with identifier `id`.
pub open spec fn first_id(s: Seq<(u32, Entity)>, id: u32, i: int) -> bool {
    0 <= i < s.len() && s[i].0 == id && forall|j: int| 0 <= j < i ==> (#[trigger] s[j]).0 != id
}

/// The entry of `s` with identifier `id`.
pub open spec fn entry_index(s: Seq<(u32, Entity)>, id: u32) -> Option<int> {
    if exists|i: int| first_id(s, id, i) {
        Some(choose|i: int| first_id(s, id, i))
    } else {
        None
    }
}

/// Whether `i` is the first move of `ms` that starts on `p`.
pub open spec fn first_from_at(ms: Seq<MoveEntity>, p: [isize; 2], i: int) -> bool {
    0 <= i < ms.len() && same_cell(ms[i].from, p) && forall|j: int|
        0 <= j < i ==> !same_cell(#[trigger] ms[j].from, p)
}

/// The first move of `ms` that starts on `p`.
pub open spec fn move_from(ms: Seq<MoveEntity>, p: [isize; 2]) -> Option<int> {
    if exists|i: int| first_from_at(ms, p, i) {
        Some(choose|i: int| first_from_at(ms, p, i))
    } else {
        None
    }
}

/// Phase one, one step at position `index` of the working list: returns
/// the new state and position. A move into an empty cell, or of an entity
/// that is gone, is passed. A move into an entity that is itself scheduled
/// to leave lets that move go to the back of the list, unless it is last.
/// A goop-covered human and a cake that meet feed: the mover is used up and
/// the other becomes a plain human. A mover without friction that meets an
/// entity on ice passes its momentum on. Otherwise the entity is pushed.
pub open spec fn push_step(st: Tick, w: int, h: int, index: int) -> (Tick, int) {
    let m = st.moves[index];
    let to = dest(m);
    if entity_on(st.entities, to) is None || entry_index(st.entities, m.entity_id) is None {
        (st, index + 1)
    } else {
        let k = entity_on(st.entities, to)->Some_0;
        let me = entry_index(st.entities, m.entity_id)->Some_0;
        let target_id = st.entities[k].0;
        let target = st.entities[k].1;
        let mover = st.entities[me].1;
        if move_from(st.moves, to) is Some && move_from(st.moves, to)->Some_0 + 1 < st.moves.len() {
            let i = move_from(st.moves, to)->Some_0;
            (Tick { moves: st.moves.remove(i).push(st.moves[i]), ..st }, index)
        } else if feeds(mover.kind, target.kind) {
            (
                Tick {
                    entities: st.entities.update(k, (target_id, fed(target))).remove(me),
                    animations: st.animations.push(
                        Animation::Move {
                            from: mover.pos,
                            to: target.pos,
                            entity_id: m.entity_id,
                            accelerate: !mover.is_sliding,
                            decelerate: true,
                            kind: AnimationMoveKind::Apply,
                        },
                    ).push(Animation::Goopify { entity_id: target_id, kind: EntityKind::Human }),
                    moves: st.moves.remove(index),
                    ..st
                },
                index,
            )
        } else if tile_in(st, w, h, target.pos) == Some(Tile::Ice) && !m.is_friction_push {
            (
                Tick {
                    animations: st.animations.push(
                        Animation::Move {
                            entity_id: m.entity_id,
                            from: mover.pos,
                            to: target.pos,
                            accelerate: !mover.is_sliding,
                            decelerate: true,
                            kind: AnimationMoveKind::IceKick,
                        },
                    ),
                    moves: st.moves.remove(index).push(
                        MoveEntity {
                            is_friction_push: false,
                            entity_id: target_id,
                            from: target.pos,
                            direction: m.direction,
                        },
                    ),
                    ..st
                },
                index,
            )
        } else {
            (
                Tick {
                    moves: st.moves.push(
                        MoveEntity {
                            is_friction_push: true,
                            entity_id: target_id,
                            from: target.pos,
                            direction: m.direction,
                        },
                    ),
                    pushed: true,
                    ..st
                },
                index + 1,
            )
        }
    }
}

/// Phase one from position `index` with `fuel` steps left.
pub open spec fn push_run(st: Tick, w: int, h: int, index: int, fuel: nat) -> Tick
    decreases fuel,
{
    if 0 <= index < st.moves.len() && fuel > 0 {
        let (st2, index2) = push_step(st, w, h, index);
        push_run(st2, w, h, index2, (fuel - 1) as nat)
    } else {
        st
    }
}

/// Whether nothing can enter `p` in state `st`.
pub open spec fn solid_in(st: Tick, w: int, h: int, p: [isize; 2]) -> bool {
    ||| !(0 <= p[0] < w && 0 <= p[1] < h)
    ||| st.buffer[p[0] + p[1] * w] is Wall
    ||| occupied(st.entities, p)
}

/// Phase two for move `m` of entity number `i`: it fails against a solid
/// cell, and a bucket of goop fails against a home; otherwise the entity
/// enters the cell, spilling goop if it is a bucket, taking goop from a
/// goop tile, and sliding on over ice.
pub open spec fn move_step(st: Tick, w: int, h: int, i: int, m: MoveEntity) -> Tick {
    let e = st.entities[i].1;
    let to = dest(m);
    let t = st.buffer[to[0] + to[1] * w];
    if solid_in(st, w, h, to) || (e.kind == EntityKind::BucketOfGoop && (t is Home || t is SadHome)) {
        Tick {
            animations: st.animations.push(
                Animation::FailedMove {
                    entity_id: m.entity_id,
                    from: m.from,
                    to,
                    accelerate: !e.is_sliding,
                },
            ),
            ..st
        }
    } else {
        let t2 = tile_after(e.kind, t);
        Tick {
            entities: st.entities.update(i, (m.entity_id, moved(e, to, t2))),
            buffer: st.buffer.update(to[0] + to[1] * w, t2),
            n_tile_changes: if t2 != t {
                st.n_tile_changes.wrapping_add(1)
            } else {
                st.n_tile_changes
            },
            next: if t2 == Tile::Ice {
                st.next.push(
                    MoveEntity { is_friction_push: false, entity_id: m.entity_id, from: to, direction: m.direction },
                )
            } else {
                st.next
            },
            animations: st.animations + (if is_goop(t2) && goopified(e.kind) != e.kind {
                seq![Animation::Goopify { entity_id: m.entity_id, kind: goopified(e.kind) }]
            } else {
                Seq::<Animation>::empty()
            }) + seq![
                Animation::Move {
                    entity_id: m.entity_id,
                    from: m.from,
                    to,
                    accelerate: !e.is_sliding,
                    decelerate: t2 != Tile::Ice,
                    kind: AnimationMoveKind::Standard,
                },
            ],
            ..st
        }
    }
}

/// Phase two for move `m`; the move of an entity that is gone is passed.
pub open spec fn exec_one(st: Tick, w: int, h: int, m: MoveEntity) -> Tick {
    match entry_index(st.entities, m.entity_id) {
        Some(i) => move_step(st, w, h, i, m),
        None => st,
    }
}

/// Phase two over the first `n` moves of `ms`, from the last to the first.
pub open spec fn exec_run(st: Tick, w: int, h: int, ms: Seq<MoveEntity>, n: nat) -> Tick
    decreases n,
{
    if n == 0 || n > ms.len() {
        st
    } else {
        exec_run(exec_one(st, w, h, ms[n - 1]), w, h, ms, (n - 1) as nat)
    }
}

/// Whether `j` is the first standard move of `a` that ends on `p`.
pub open spec fn first_arrival(a: Seq<Animation>, p: [isize; 2], j: int) -> bool {
    0 <= j < a.len() && arrives_at(a[j], p) && forall|l: int| 0 <= l < j ==> !arrives_at(#[trigger] a[l], p)
}

/// The feed without the first standard move that ends on `p`, with where
/// that move started and whether it accelerated; the feed as it is, `p`
/// and no acceleration when there is none.
pub open spec fn take_arrival_spec(a: Seq<Animation>, p: [isize; 2]) -> (Seq<Animation>, [isize; 2], bool) {
    if exists|j: int| first_arrival(a, p, j) {
        let j = choose|j: int| first_arrival(a, p, j);
        match a[j] {
            Animation::Move { from, accelerate, .. } => (a.remove(j), from, accelerate),
            _ => (a, p, false),
        }
    } else {
        (a, p, false)
    }
}

/// Phase three for entity number `i`: a human on a home or a cake on a sad
/// home changes the tile and is marked for removal; the move that brought
/// it is replaced by one that ends in being applied.
pub open spec fn scan_step(st: Tick, w: int, removed: Seq<u32>, i: int) -> (Tick, Seq<u32>) {
    let id = st.entities[i].0;
    let e = st.entities[i].1;
    let at = e.pos[0] + e.pos[1] * w;
    match consumed_tile(e.kind, st.buffer[at]) {
        None => (st, removed),
        Some(nt) => {
            let (anims, from, accelerate) = take_arrival_spec(st.animations, e.pos);
            (
                Tick {
                    buffer: st.buffer.update(at, nt),
                    n_tile_changes: st.n_tile_changes.wrapping_add(1),
                    animations: anims.push(
                        Animation::Move {
                            entity_id: id,
                            from,
                            to: e.pos,
                            accelerate,
                            decelerate: false,
                            kind: AnimationMoveKind::Apply,
                        },
                    ),
                    ..st
                },
                removed.push(id),
            )
        },
    }
}

/// Phase three over the first `n` entities.
pub open spec fn scan_run(st: Tick, w: int, n: nat) -> (Tick, Seq<u32>)
    decreases n,
{
    if n == 0 {
        (st, Seq::empty())
    } else {
        let (s1, r1) = scan_run(st, w, (n - 1) as nat);
        scan_step(s1, w, r1, n - 1)
    }
}

/// Removes the entity `id` marked in phase three; a human lowers the count,
/// and the level is won when it reaches zero.
pub open spec fn remove_step(st: Tick, id: u32) -> Tick {
    match entry_index(st.entities, id) {
        None => st,
        Some(k) => {
            let human = is_human_kind(st.entities[k].1.kind);
            let n = if human {
                st.n_humans - 1
            } else {
                st.n_humans
            };
            Tick {
                entities: st.entities.remove(k),
                n_humans: n,
                has_won: st.has_won || (human && n == 0),
                ..st
            }
        },
    }
}

/// The removals of the first `n` marked identifiers.
pub open spec fn remove_run(st: Tick, ids: Seq<u32>, n: nat) -> Tick
    decreases n,
{
    if n == 0 || n > ids.len() {
        st
    } else {
        remove_step(remove_run(st, ids, (n - 1) as nat), ids[n - 1])
    }
}

/// The state after phase three.
pub open spec fn consume_run(st: Tick, w: int) -> Tick {
    let (s1, removed) = scan_run(st, w, st.entities.len());
    remove_run(s1, removed, removed.len())
}

/// Phase one of a tick of level `l` with the feed `animations`, over the
/// pending moves, for at most `RESOLUTION_STEP_LIMIT` steps.
pub open spec fn pushes_of(l: Level, animations: Seq<Animation>) -> Tick {
    let t0 = snap(l, animations, l.data.active_events.moves@, Seq::empty(), false);
    push_run(t0, l.data.tiles.width as int, l.data.tiles.height as int, 0, RESOLUTION_STEP_LIMIT as nat)
}

/// One tick of level `l` with the feed `animations`: phase one, phase two
/// over the list it leaves, phase three. The moves left for the next tick
/// are the state's `next`.
pub open spec fn tick_of(l: Level, animations: Seq<Animation>) -> Tick {
    let w = l.data.tiles.width as int;
    let h = l.data.tiles.height as int;
    let t1 = pushes_of(l, animations);
    let t2 = exec_run(t1, w, h, t1.moves, t1.moves.len());
    consume_run(t2, w)
}

/// With distinct cells, the entity found on `p` is the first on `p`.
pub proof fn lemma_entity_on(s: Seq<(u32, Entity)>, p: [isize; 2], r: Option<usize>)
    requires
        cells_distinct(s),
        match r {
            Some(k) => k < s.len() && same_cell(s[k as int].1.pos, p),
            None => !occupied(s, p),
        },
    ensures
        entity_on(s, p) == match r {
            Some(k) => Some(k as int),
            None => None::<int>,
        },
{
    match r {
        Some(k) => {
            assert forall|j: int| 0 <= j < k implies !same_cell(#[trigger] s[j].1.pos, p) by {
                assert(!same_cell(s[j].1.pos, s[k as int].1.pos));
            }
            assert(first_at(s, p, k as int));
            let c = choose|c: int| first_at(s, p, c);
            if c < k {
                assert(!same_cell(s[c].1.pos, s[k as int].1.pos));
            } else if c > k {
                assert(!same_cell(s[k as int].1.pos, s[c].1.pos));
            }
        },
        None => {
            if exists|i: int| first_at(s, p, i) {
                let c = choose|c: int| first_at(s, p, c);
                assert(same_cell(s[c].1.pos, p));
            }
        },
    }
}

/// The move found by `first_move_from` is the first on `p`.
pub proof fn lemma_move_from(ms: Seq<MoveEntity>, p: [isize; 2], r: Option<usize>)
    requires
        match r {
            Some(i) => i < ms.len() && same_cell(ms[i as int].from, p) && forall|j: int|
                0 <= j < i ==> !same_cell(#[trigger] ms[j].from, p),
            None => forall|j: int| 0 <= j < ms.len() ==> !same_cell(#[trigger] ms[j].from, p),
        },
    ensures
        move_from(ms, p) == match r {
            Some(i) => Some(i as int),
            None => None::<int>,
        },
{
    match r {
        Some(i) => {
            assert(first_from_at(ms, p, i as int));
            let c = choose|c: int| first_from_at(ms, p, c);
            if c < i {
                assert(!same_cell(ms[c].from, p));
            } else if c > i {
                assert(!same_cell(ms[i as int].from, p));
            }
        },
        None => {
            if exists|i: int| first_from_at(ms, p, i) {
                let c = choose|c: int| first_from_at(ms, p, c);
                assert(same_cell(ms[c].from, p));
            }
        },
    }
}

/// With ordered identifiers, the entry found for `id` is the first.
pub proof fn lemma_entry_index(s: Seq<(u32, Entity)>, k: int)
    requires
        ids_ordered(s),
        0 <= k < s.len(),
    ensures
        entry_index(s, s[k].0) == Some(k),
{
    assert forall|j: int| 0 <= j < k implies (#[trigger] s[j]).0 != s[k].0 by {
        assert(s[j].0 < s[k].0);
    }
    assert(first_id(s, s[k].0, k));
    let c = choose|i: int| first_id(s, s[k].0, i);
    if c < k {
        assert(s[c].0 < s[k].0);
    } else if c > k {
        assert(s[k].0 < s[c].0);
    }
}

/// No entry for an identifier that is absent.
pub proof fn lemma_entry_index_none(s: Seq<(u32, Entity)>, id: u32)
    requires
        !has_id(s, id),
    ensures
        entry_index(s, id) is None,
{
    if exists|i: int| first_id(s, id, i) {
        let c = choose|i: int| first_id(s, id, i);
        assert(s[c].0 == id);
    }
}

/// What `take_arrival` returns is what `take_arrival_spec` describes.
pub proof fn lemma_take_arrival(
    a: Seq<Animation>,
    b: Seq<Animation>,
    p: [isize; 2],
    r: Option<([isize; 2], bool)>,
)
    requires
        match r {
            Some((from, accelerate)) => exists|j: int|
                0 <= j < a.len() && arrives_at(a[j], p) && (forall|l: int|
                    0 <= l < j ==> !arrives_at(#[trigger] a[l], p)) && b == a.remove(j) && (a[j] matches Animation::Move {
                    from: f,
                    accelerate: c,
                    ..
                } && f == from && c == accelerate),
            None => b == a && forall|l: int| 0 <= l < a.len() ==> !arrives_at(#[trigger] a[l], p),
        },
    ensures
        take_arrival_spec(a, p) == (match r {
            Some((from, accelerate)) => (b, from, accelerate),
            None => (b, p, false),
        }),
{
    match r {
        Some((from, accelerate)) => {
            let j = choose|j: int|
                0 <= j < a.len() && arrives_at(a[j], p) && (forall|l: int|
                    0 <= l < j ==> !arrives_at(#[trigger] a[l], p)) && b == a.remove(j) && (a[j] matches Animation::Move {
                    from: f,
                    accelerate: c,
                    ..
                } && f == from && c == accelerate);
            assert(first_arrival(a, p, j));
            let c = choose|c: int| first_arrival(a, p, c);
            if c < j {
                assert(!arrives_at(a[c], p));
            } else if c > j {
                assert(!arrives_at(a[j], p));
            }
        },
        None => {
            if exists|j: int| first_arrival(a, p, j) {
                let c = choose|c: int| first_arrival(a, p, c);
                assert(!arrives_at(a[c], p));
            }
        },
    }
}

impl Level {
    /// A goop-covered human and a cake meet: the mover `me` is consumed and
    /// the target `k` becomes a plain human.
    fn feed(&mut self, me: usize, k: usize)
        requires
            old(self).wf(),
            me < old(self).data.entities@.len(),
            k < old(self).data.entities@.len(),
            feeds(old(self).data.entities@[me as int].1.kind, old(self).data.entities@[k as int].1.kind),
        ensures
            final(self).wf(),
            final(self).data.entities@ == old(self).data.entities@.update(
                k as int,
                (old(self).data.entities@[k as int].0, fed(old(self).data.entities@[k as int].1)),
            ).remove(me as int),
            final(self).data.tiles == old(self).data.tiles,
            final(self).data.n_humans == old(self).data.n_humans,
            final(self).has_won == old(self).has_won,
            final(self).n_tile_changes == old(self).n_tile_changes,
            phase_frame(*old(self), *final(self)),
    {
        let ghost s = self.data.entities@;
        let ghost pid = self.player_id;
        let ghost ctr = self.entity_id_ctr;
        let (tid, t) = self.data.entities[k];
        let e = Entity { pos: t.pos, kind: EntityKind::Human, is_sliding: t.is_sliding };
        proof {
            lemma_not_player(s, k as int, pid, ctr, self.data.tiles);
            lemma_entities_update(s, k as int, e, pid, ctr, self.data.tiles);
            lemma_count_humans_update(s, k as int, (tid, e));
        }
        self.data.entities.set(k, (tid, e));
        let ghost s1 = self.data.entities@;
        proof {
            assert(s1[me as int] == s[me as int]);
            lemma_not_player(s1, me as int, pid, ctr, self.data.tiles);
            lemma_entities_remove(s1, me as int, pid, ctr, self.data.tiles);
            lemma_count_humans_remove(s1, me as int);
        }
        self.data.entities.remove(me);
    }

    /// Phase one of a tick: walks the pending moves and, wherever a move
    /// runs into an entity, lets that entity give way first, feeds it,
    /// passes the momentum on over ice, or queues a push of it. Returns
    /// whether anything was pushed.
    fn resolve_pushes(&mut self, moves: &mut Vec<MoveEntity>, animations: &mut Vec<Animation>) -> (pushed: bool)
        requires
            old(self).wf(),
            moves_in_bounds(old(self).data.tiles, old(moves)@),
        ensures
            final(self).wf(),
            moves_in_bounds(final(self).data.tiles, final(moves)@),
            final(self).data.tiles == old(self).data.tiles,
            final(self).data.n_humans == old(self).data.n_humans,
            final(self).has_won == old(self).has_won,
            final(self).n_tile_changes == old(self).n_tile_changes,
            phase_frame(*old(self), *final(self)),
            ids_kept(old(self).data.entities@, final(self).data.entities@),
            extends(old(animations)@, final(animations)@),
            snap(*final(self), final(animations)@, final(moves)@, Seq::empty(), pushed) == push_run(
                snap(*old(self), old(animations)@, old(moves)@, Seq::empty(), false),
                old(self).data.tiles.width as int,
                old(self).data.tiles.height as int,
                0,
                RESOLUTION_STEP_LIMIT as nat,
            ),
    {
        let ghost w = self.data.tiles.width as int;
        let ghost h = self.data.tiles.height as int;
        let mut index: usize = 0;
        let mut fuel: usize = RESOLUTION_STEP_LIMIT;
        let mut pushed = false;
        while index < moves.len() && fuel > 0
            invariant
                self.wf(),
                moves_in_bounds(self.data.tiles, moves@),
                self.data.tiles == old(self).data.tiles,
                self.data.n_humans == old(self).data.n_humans,
                self.has_won == old(self).has_won,
                self.n_tile_changes == old(self).n_tile_changes,
                phase_frame(*old(self), *self),
                ids_kept(old(self).data.entities@, self.data.entities@),
                extends(old(animations)@, animations@),
                w == self.data.tiles.width,
                h == self.data.tiles.height,
                push_run(snap(*self, animations@, moves@, Seq::empty(), pushed), w, h, index as int, fuel as nat)
                    == push_run(
                    snap(*old(self), old(animations)@, old(moves)@, Seq::empty(), false),
                    w,
                    h,
                    0,
                    RESOLUTION_STEP_LIMIT as nat,
                ),
            decreases fuel,
        {
            let ghost cur = snap(*self, animations@, moves@, Seq::empty(), pushed);
            let ghost stepped = push_step(cur, w, h, index as int);
            fuel -= 1;
            let m = moves[index];
            assert(self.data.tiles.in_bounds(moves@[index as int].from));
            let to = m.to();
            let found = self.data.entity_at(to);
            proof {
                lemma_entity_on(self.data.entities@, to, found);
            }
            let k = match found {
                Some(k) => k,
                None => {
                    index += 1;
                    continue;
                },
            };
            // A move of an entity that was used up earlier in this tick
            // has nobody to carry out; it is passed over.
            let me = match self.data.entity_index(m.entity_id) {
                Some(me) => me,
                None => {
                    proof {
                        lemma_entry_index_none(self.data.entities@, m.entity_id);
                    }
                    index += 1;
                    continue;
                },
            };
            proof {
                lemma_entry_index(self.data.entities@, me as int);
            }
            let (target_id, target) = self.data.entities[k];
            let mover = self.data.entities[me].1;
            // An entity already scheduled to leave the cell moves first,
            // unless its move is the last one in the list.
            let leaving = first_move_from(moves, to);
            proof {
                lemma_move_from(moves@, to, leaving);
            }
            match leaving {
                Some(i) => {
                    if i + 1 < moves.len() {
                        let ghost before = moves@;
                        let other = moves.remove(i);
                        moves.push(other);
                        proof {
                            assert(moves@ == before.remove(i as int).push(before[i as int]));
                            assert(snap(*self, animations@, moves@, Seq::empty(), pushed) == stepped.0);
                        }
                        continue;
                    }
                },
                None => {},
            }
            if (mover.kind == EntityKind::HumanWithGoop && target.kind == EntityKind::Cake) || (
            mover.kind == EntityKind::Cake && target.kind == EntityKind::HumanWithGoop) {
                let ghost before = self.data.entities@;
                animations.push(
                    Animation::Move {
                        from: mover.pos,
                        to: target.pos,
                        entity_id: m.entity_id,
                        accelerate: !mover.is_sliding,
                        decelerate: true,
                        kind: AnimationMoveKind::Apply,
                    },
                );
                animations.push(Animation::Goopify { entity_id: target_id, kind: EntityKind::Human });
                moves.remove(index);
                self.feed(me, k);
                proof {
                    let u = before.update(k as int, (before[k as int].0, fed(before[k as int].1)));
                    let after = self.data.entities@;
                    assert forall|j: int| 0 <= j < after.len() implies has_id(
                        old(self).data.entities@,
                        #[trigger] after[j].0,
                    ) by {
                        let j2 = if j < me { j } else { j + 1 };
                        assert(after[j] == u[j2]);
                        assert(before[j2].0 == u[j2].0);
                        assert(has_id(before, before[j2].0));
                    }
                }
                continue;
            }
            let on_ice = match self.data.tiles.get_tile(target.pos) {
                Some(Tile::Ice) => true,
                _ => false,
            };
            if on_ice && !m.is_friction_push {
                // Nothing to push against: the momentum passes on.
                moves.remove(index);
                animations.push(
                    Animation::Move {
                        entity_id: m.entity_id,
                        from: mover.pos,
                        to: target.pos,
                        accelerate: !mover.is_sliding,
                        decelerate: true,
                        kind: AnimationMoveKind::IceKick,
                    },
                );
                moves.push(MoveEntity::new(target_id, target.pos, m.direction));
            } else {
                moves.push(
                    MoveEntity {
                        is_friction_push: true,
                        entity_id: target_id,
                        from: target.pos,
                        direction: m.direction,
                    },
                );
                index += 1;
                pushed = true;
            }
        }
        pushed
    }

    /// Phase two for one move `m` of entity number `i` into the cell `to`.
    fn execute_move(
        &mut self,
        i: usize,
        m: MoveEntity,
        to: [isize; 2],
        animations: &mut Vec<Animation>,
        next: &mut Vec<MoveEntity>,
        Ghost(moves): Ghost<Seq<MoveEntity>>,
        Ghost(pushed): Ghost<bool>,
    )
        requires
            old(self).wf(),
            i < old(self).data.entities@.len(),
            old(self).data.entities@[i as int].0 == m.entity_id,
            old(self).data.tiles.in_bounds(m.from),
            at(to, step(m.from, m.direction)),
            to == dest(m),
            moves_in_bounds(old(self).data.tiles, old(next)@),
        ensures
            final(self).wf(),
            phase_frame(*old(self), *final(self)),
            final(self).data.n_humans == old(self).data.n_humans,
            final(self).has_won == old(self).has_won,
            moves_in_bounds(final(self).data.tiles, final(next)@),
            forall|c: int|
                0 <= c < old(self).data.tiles.buffer@.len() ==> spilt(
                    old(self).data.tiles.buffer@[c],
                    #[trigger] final(self).data.tiles.buffer@[c],
                ),
            (final(self).data.tiles.buffer@ == old(self).data.tiles.buffer@ && final(self).n_tile_changes
                == old(self).n_tile_changes) || (exists|c: int|
                #[trigger] spilt_at(old(self).data.tiles.buffer@, final(self).data.tiles.buffer@, c)
                    && final(self).n_tile_changes == old(self).n_tile_changes.wrapping_add(1)),
            snap(*final(self), final(animations)@, moves, final(next)@, pushed) == move_step(
                snap(*old(self), old(animations)@, moves, old(next)@, pushed),
                old(self).data.tiles.width as int,
                old(self).data.tiles.height as int,
                i as int,
                m,
            ),
            ({
                let d = old(self).data;
                let e = d.entities@[i as int].1;
                if blocked(d, e, to) {
                    &&& final(self).data.entities@ == d.entities@
                    &&& final(self).data.tiles == d.tiles
                    &&& final(self).n_tile_changes == old(self).n_tile_changes
                    &&& final(next)@ == old(next)@
                    &&& final(animations)@ == old(animations)@.push(
                        Animation::FailedMove {
                            entity_id: m.entity_id,
                            from: m.from,
                            to,
                            accelerate: !e.is_sliding,
                        },
                    )
                } else {
                    let t = d.tiles.tile_at(to);
                    let t2 = tile_after(e.kind, t);
                    let goop_anims = if is_goop(t2) && goopified(e.kind) != e.kind {
                        seq![Animation::Goopify { entity_id: m.entity_id, kind: goopified(e.kind) }]
                    } else {
                        Seq::<Animation>::empty()
                    };
                    &&& final(self).data.entities@ == d.entities@.update(
                        i as int,
                        (m.entity_id, moved(e, to, t2)),
                    )
                    &&& final(self).data.tiles.buffer@ == d.tiles.buffer@.update(
                        d.tiles.index_of(to),
                        t2,
                    )
                    &&& final(self).n_tile_changes == if t2 != t {
                        old(self).n_tile_changes.wrapping_add(1)
                    } else {
                        old(self).n_tile_changes
                    }
                    &&& final(next)@ == if t2 == Tile::Ice {
                        old(next)@.push(
                            (MoveEntity {
                                is_friction_push: false,
                                entity_id: m.entity_id,
                                from: to,
                                direction: m.direction,
                            }),
                        )
                    } else {
                        old(next)@
                    }
                    &&& final(animations)@ == old(animations)@ + goop_anims + seq![
                        Animation::Move {
                            entity_id: m.entity_id,
                            from: m.from,
                            to,
                            accelerate: !e.is_sliding,
                            decelerate: t2 != Tile::Ice,
                            kind: AnimationMoveKind::Standard,
                        },
                    ]
                }
            }),
    {
        let ghost s = self.data.entities@;
        let ghost pid = self.player_id;
        let ghost ctr = self.entity_id_ctr;
        let e = self.data.entities[i].1;
        if self.tile_is_solid(to) {
            animations.push(
                Animation::FailedMove {
                    entity_id: m.entity_id,
                    from: m.from,
                    to,
                    accelerate: !e.is_sliding,
                },
            );
            return;
        }
        let t = match self.data.tiles.get_tile(to) {
            Some(t) => t,
            None => {
                return;
            },
        };
        if e.kind == EntityKind::BucketOfGoop {
            match t {
                Tile::Ice => {
                    self.data.tiles.set_tile(to, Tile::IceWithGoop);
                    self.n_tile_changes = self.n_tile_changes.wrapping_add(1);
                },
                Tile::Floor => {
                    self.data.tiles.set_tile(to, Tile::FloorWithGoop);
                    self.n_tile_changes = self.n_tile_changes.wrapping_add(1);
                },
                Tile::Home | Tile::SadHome => {
                    // A bucket of goop cannot enter a home.
                    animations.push(
                        Animation::FailedMove {
                            entity_id: m.entity_id,
                            from: m.from,
                            to,
                            accelerate: !e.is_sliding,
                        },
                    );
                    return;
                },
                _ => {},
            }
        }
        let t2 = match self.data.tiles.get_tile(to) {
            Some(t2) => t2,
            None => t,
        };
        proof {
            old(self).data.tiles.lemma_index_in_range(to);
            assert(self.data.tiles.buffer@ =~= old(self).data.tiles.buffer@.update(
                old(self).data.tiles.index_of(to),
                t2,
            ));
        }
        let ghost anims0 = animations@;
        let mut entity = e;
        match t2 {
            Tile::Ice => {
                next.push(MoveEntity::new(m.entity_id, to, m.direction));
            },
            Tile::IceWithGoop | Tile::FloorWithGoop => {
                entity.goopify();
                if entity.kind != e.kind {
                    animations.push(Animation::Goopify { entity_id: m.entity_id, kind: entity.kind });
                }
            },
            _ => {},
        }
        let moving_to_ice = match t2 {
            Tile::Ice => true,
            _ => false,
        };
        entity.pos = to;
        animations.push(
            Animation::Move {
                entity_id: m.entity_id,
                from: m.from,
                to,
                accelerate: !e.is_sliding,
                decelerate: !moving_to_ice,
                kind: AnimationMoveKind::Standard,
            },
        );
        entity.is_sliding = moving_to_ice;
        proof {
            let goop_anims = if is_goop(t2) && goopified(e.kind) != e.kind {
                seq![Animation::Goopify { entity_id: m.entity_id, kind: goopified(e.kind) }]
            } else {
                Seq::<Animation>::empty()
            };
            assert(animations@ =~= anims0 + goop_anims + seq![
                Animation::Move {
                    entity_id: m.entity_id,
                    from: m.from,
                    to,
                    accelerate: !e.is_sliding,
                    decelerate: t2 != Tile::Ice,
                    kind: AnimationMoveKind::Standard,
                },
            ]);
            lemma_entities_update(s, i as int, entity, pid, ctr, self.data.tiles);
            lemma_count_humans_update(s, i as int, (m.entity_id, entity));
        }
        self.data.entities.set(i, (m.entity_id, entity));
        proof {
            let ci = old(self).data.tiles.index_of(to);
            if t2 == t {
                assert(self.data.tiles.buffer@ =~= old(self).data.tiles.buffer@);
            } else {
                assert(spilt_at(old(self).data.tiles.buffer@, self.data.tiles.buffer@, ci));
            }
        }
    }

    /// Phase two of a tick: executes the moves from the last to the first,
    /// so that pushed entities leave before their pushers arrive. Returns
    /// the moves of entities that landed on ice and slide on.
    fn execute_moves(
        &mut self,
        moves: &Vec<MoveEntity>,
        animations: &mut Vec<Animation>,
        Ghost(pushed): Ghost<bool>,
    ) -> (next: Vec<MoveEntity>)
        requires
            old(self).wf(),
            moves_in_bounds(old(self).data.tiles, moves@),
        ensures
            forall|c: int|
                0 <= c < old(self).data.tiles.buffer@.len() ==> spilt(
                    old(self).data.tiles.buffer@[c],
                    #[trigger] final(self).data.tiles.buffer@[c],
                ),
            final(self).n_tile_changes == bumped(
                old(self).n_tile_changes,
                changes(old(self).data.tiles.buffer@, final(self).data.tiles.buffer@),
            ),
            snap(*final(self), final(animations)@, moves@, next@, pushed) == exec_run(
                snap(*old(self), old(animations)@, moves@, Seq::empty(), pushed),
                old(self).data.tiles.width as int,
                old(self).data.tiles.height as int,
                moves@,
                moves@.len(),
            ),
            final(self).wf(),
            phase_frame(*old(self), *final(self)),
            final(self).data.n_humans == old(self).data.n_humans,
            final(self).has_won == old(self).has_won,
            moves_in_bounds(final(self).data.tiles, next@),
            final(self).data.entities@.len() == old(self).data.entities@.len(),
            forall|j: int|
                0 <= j < final(self).data.entities@.len() ==> (#[trigger] final(self).data.entities@[j]).0
                    == old(self).data.entities@[j].0,
    {
        let mut next: Vec<MoveEntity> = Vec::new();
        let mut i: usize = moves.len();
        proof {
            lemma_changed_same(self.data.tiles.buffer@);
        }
        let ghost w = self.data.tiles.width as int;
        let ghost h = self.data.tiles.height as int;
        while i > 0
            invariant
                i <= moves@.len(),
                w == old(self).data.tiles.width,
                h == old(self).data.tiles.height,
                self.data.tiles.buffer@.len() == old(self).data.tiles.buffer@.len(),
                self.n_tile_changes == bumped(
                    old(self).n_tile_changes,
                    changes(old(self).data.tiles.buffer@, self.data.tiles.buffer@),
                ),
                forall|c: int|
                    0 <= c < old(self).data.tiles.buffer@.len() ==> spilt(
                        old(self).data.tiles.buffer@[c],
                        #[trigger] self.data.tiles.buffer@[c],
                    ),
                exec_run(snap(*self, animations@, moves@, next@, pushed), w, h, moves@, i as nat)
                    == exec_run(
                    snap(*old(self), old(animations)@, moves@, Seq::empty(), pushed),
                    w,
                    h,
                    moves@,
                    moves@.len(),
                ),
                self.wf(),
                phase_frame(*old(self), *self),
                self.data.n_humans == old(self).data.n_humans,
                self.has_won == old(self).has_won,
                moves_in_bounds(self.data.tiles, moves@),
                moves_in_bounds(self.data.tiles, next@),
                self.data.entities@.len() == old(self).data.entities@.len(),
                forall|j: int|
                    0 <= j < self.data.entities@.len() ==> (#[trigger] self.data.entities@[j]).0
                        == old(self).data.entities@[j].0,
            decreases i,
        {
            i -= 1;
            let m = moves[i];
            assert(self.data.tiles.in_bounds(moves@[i as int].from));
            let to = m.to();
            // The moves of entities used up in phase one are passed over.
            match self.data.entity_index(m.entity_id) {
                Some(k) => {
                    let ghost before = self.data.entities@;
                    proof {
                        lemma_entry_index(before, k as int);
                    }
                    let ghost buf0 = self.data.tiles.buffer@;
                    let ghost n0 = self.n_tile_changes;
                    self.execute_move(k, m, to, animations, &mut next, Ghost(moves@), Ghost(pushed));
                    proof {
                        let start = old(self).data.tiles.buffer@;
                        if !(self.data.tiles.buffer@ == buf0 && self.n_tile_changes == n0) {
                            let c = choose|c: int| #[trigger] spilt_at(buf0, self.data.tiles.buffer@, c)
                                && self.n_tile_changes == n0.wrapping_add(1);
                            assert(spilt(start[c], buf0[c]));
                            lemma_changed_update(start, buf0, c, self.data.tiles.buffer@[c], start.len() as int);
                            lemma_bumped_step(old(self).n_tile_changes, changes(start, buf0));
                        }
                        assert forall|c: int| 0 <= c < old(self).data.tiles.buffer@.len() implies spilt(
                            old(self).data.tiles.buffer@[c],
                            #[trigger] self.data.tiles.buffer@[c],
                        ) by {
                            assert(spilt(old(self).data.tiles.buffer@[c], buf0[c]));
                            assert(spilt(buf0[c], self.data.tiles.buffer@[c]));
                        }
                    }
                    assert forall|j: int| 0 <= j < self.data.entities@.len() implies (
                    #[trigger] self.data.entities@[j]).0 == old(self).data.entities@[j].0 by {
                        assert(before[j].0 == old(self).data.entities@[j].0);
                    }
                },
                None => {
                    proof {
                        lemma_entry_index_none(self.data.entities@, m.entity_id);
                    }
                },
            }
        }
        next
    }

    /// Removes entity number `k`, which is not the player; removing a human
    /// lowers the count of humans, and the level is won when it reaches zero.
    fn remove_entity(&mut self, k: usize)
        requires
            old(self).wf(),
            k < old(self).data.entities@.len(),
            old(self).data.entities@[k as int].0 != old(self).player_id,
        ensures
            final(self).wf(),
            phase_frame(*old(self), *final(self)),
            final(self).data.entities@ == old(self).data.entities@.remove(k as int),
            final(self).data.tiles == old(self).data.tiles,
            final(self).n_tile_changes == old(self).n_tile_changes,
            final(self).data.n_humans == old(self).data.n_humans - if is_human_kind(
                old(self).data.entities@[k as int].1.kind,
            ) {
                1int
            } else {
                0int
            },
            final(self).has_won == (old(self).has_won || (is_human_kind(
                old(self).data.entities@[k as int].1.kind,
            ) && final(self).data.n_humans == 0)),
    {
        let e = self.data.entities[k].1;
        proof {
            lemma_entities_remove(
                self.data.entities@,
                k as int,
                self.player_id,
                self.entity_id_ctr,
                self.data.tiles,
            );
            lemma_count_humans_remove(self.data.entities@, k as int);
        }
        self.data.entities.remove(k);
        if e.kind == EntityKind::Human || e.kind == EntityKind::HumanWithGoop {
            self.data.n_humans = self.data.n_humans - 1;
            if self.data.n_humans == 0 {
                self.has_won = true;
            }
        }
    }

    /// Phase three of a tick: humans standing on a home fill it, cakes on a
    /// sad home cheer it up; both are used up. The move that brought each
    /// one there is replaced by one that ends in being applied.
    #[verifier::rlimit(60)]
    fn consume_tiles(
        &mut self,
        animations: &mut Vec<Animation>,
        Ghost(moves): Ghost<Seq<MoveEntity>>,
        Ghost(next): Ghost<Seq<MoveEntity>>,
        Ghost(pushed): Ghost<bool>,
        Ghost(start): Ghost<Seq<Tile>>,
        Ghost(counter): Ghost<u32>,
    )
        requires
            old(self).wf(),
            start.len() == old(self).data.tiles.buffer@.len(),
            forall|c: int| 0 <= c < start.len() ==> spilt(start[c], #[trigger] old(self).data.tiles.buffer@[c]),
            old(self).n_tile_changes == bumped(counter, changes(start, old(self).data.tiles.buffer@)),
        ensures
            final(self).n_tile_changes == bumped(counter, changes(start, final(self).data.tiles.buffer@)),
            forall|c: int|
                0 <= c < old(self).data.tiles.buffer@.len() ==> homed(
                    old(self).data.tiles.buffer@[c],
                    #[trigger] final(self).data.tiles.buffer@[c],
                ),
            snap(*final(self), final(animations)@, moves, next, pushed) == consume_run(
                snap(*old(self), old(animations)@, moves, next, pushed),
                old(self).data.tiles.width as int,
            ),
            final(self).wf(),
            phase_frame(*old(self), *final(self)),
            win_follows(*old(self), *final(self)),
            ids_kept(old(self).data.entities@, final(self).data.entities@),
            settled(final(self).data),
    {
        let mut to_remove: Vec<u32> = Vec::new();
        let mut i: usize = 0;
        proof {
            lemma_scanned_start(self.data.tiles.buffer@, self.data.tiles, self.data.entities@);
        }
        let ghost w = self.data.tiles.width as int;
        let ghost st0 = snap(*self, animations@, moves, next, pushed);
        while i < self.data.entities.len()
            invariant
                w == self.data.tiles.width,
                st0 == snap(*old(self), old(animations)@, moves, next, pushed),
                scan_run(st0, w, i as nat) == (snap(*self, animations@, moves, next, pushed), to_remove@),
                scanned_cells(old(self).data.tiles.buffer@, self.data.tiles, self.data.entities@, i as int),
                start.len() == old(self).data.tiles.buffer@.len(),
                forall|c: int| 0 <= c < start.len() ==> spilt(start[c], #[trigger] old(self).data.tiles.buffer@[c]),
                self.n_tile_changes == bumped(counter, changes(start, self.data.tiles.buffer@)),
                self.wf(),
                phase_frame(*old(self), *self),
                self.data.entities@ == old(self).data.entities@,
                self.data.n_humans == old(self).data.n_humans,
                self.has_won == old(self).has_won,
                i <= self.data.entities@.len(),
                forall|r: int| 0 <= r < to_remove@.len() ==> #[trigger] to_remove@[r] != self.player_id,
                forall|l: int|
                    0 <= l < i ==> marked(to_remove@, (#[trigger] self.data.entities@[l]).0) || consumed_tile(
                        self.data.entities@[l].1.kind,
                        self.data.tiles.tile_at(self.data.entities@[l].1.pos),
                    ) is None,
            decreases self.data.entities@.len() - i,
        {
            let (id, e) = self.data.entities[i];
            assert(self.data.tiles.in_bounds(self.data.entities@[i as int].1.pos));
            let t = match self.data.tiles.get_tile(e.pos) {
                Some(t) => t,
                None => Tile::Floor,
            };
            let new_tile = match (e.kind, t) {
                (EntityKind::Human, Tile::Home) => Some(Tile::Wall(WallKind::HappyHome)),
                (EntityKind::Cake, Tile::SadHome) => Some(Tile::Home),
                _ => None,
            };
            match new_tile {
                Some(nt) => {
                    proof {
                        lemma_not_player(
                            self.data.entities@,
                            i as int,
                            self.player_id,
                            self.entity_id_ctr,
                            self.data.tiles,
                        );
                    }
                    let ghost t0 = self.data.tiles;
                    let ghost r0 = to_remove@;
                    self.data.tiles.set_tile(e.pos, nt);
                    proof {
                        lemma_homed_step(
                            old(self).data.tiles.buffer@,
                            t0,
                            self.data.tiles,
                            self.data.entities@,
                            i as int,
                            nt,
                        );
                        let ci = t0.index_of(e.pos);
                        assert(spilt(start[ci], old(self).data.tiles.buffer@[ci]));
                        lemma_changed_update(start, t0.buffer@, ci, nt, start.len() as int);
                        lemma_bumped_step(counter, changes(start, t0.buffer@));
                    }
                    self.n_tile_changes = self.n_tile_changes.wrapping_add(1);
                    proof {
                        let s = self.data.entities@;
                        assert forall|l: int| 0 <= l < i implies !same_cell(
                            (#[trigger] s[l]).1.pos,
                            e.pos,
                        ) && self.data.tiles.tile_at(s[l].1.pos) == t0.tile_at(s[l].1.pos) by {
                            assert(!same_cell(s[l].1.pos, s[i as int].1.pos));
                        }
                    }
                    let ghost a0 = animations@;
                    let arrival = take_arrival(animations, e.pos);
                    let (from, accelerate) = match arrival {
                        Some(arrival) => arrival,
                        None => (e.pos, false),
                    };
                    proof {
                        lemma_take_arrival(a0, animations@, e.pos, arrival);
                    }
                    animations.push(
                        Animation::Move {
                            entity_id: id,
                            from,
                            to: e.pos,
                            accelerate,
                            decelerate: false,
                            kind: AnimationMoveKind::Apply,
                        },
                    );
                    let ghost r0 = to_remove@;
                    to_remove.push(id);
                    proof {
                        let s = self.data.entities@;
                        assert(to_remove@[r0.len() as int] == id);
                        assert forall|l: int| 0 <= l < i + 1 implies marked(to_remove@, (#[trigger] s[l]).0)
                            || consumed_tile(s[l].1.kind, self.data.tiles.tile_at(s[l].1.pos)) is None by {
                            if l < i && marked(r0, s[l].0) {
                                let r = choose|r: int| 0 <= r < r0.len() && r0[r] == s[l].0;
                                assert(to_remove@[r] == r0[r]);
                            }
                        }
                    }
                },
                None => {
                    proof {
                        lemma_scanned_weaken(
                            old(self).data.tiles.buffer@,
                            self.data.tiles,
                            self.data.entities@,
                            i as int,
                        );
                    }
                },
            }
            i += 1;
        }
        proof {
            lemma_scanned_weaken(
                old(self).data.tiles.buffer@,
                self.data.tiles,
                self.data.entities@,
                i as int,
            );
        }
        let mut j: usize = 0;
        proof {
            assert(to_remove@.subrange(0, to_remove@.len() as int) =~= to_remove@);
        }
        let ghost scanned_tick = snap(*self, animations@, moves, next, pushed);
        while j < to_remove.len()
            invariant
                w == self.data.tiles.width,
                scanned_tick == scan_run(st0, w, st0.entities.len()).0,
                to_remove@ == scan_run(st0, w, st0.entities.len()).1,
                st0 == snap(*old(self), old(animations)@, moves, next, pushed),
                snap(*self, animations@, moves, next, pushed) == remove_run(scanned_tick, to_remove@, j as nat),
                self.n_tile_changes == bumped(counter, changes(start, self.data.tiles.buffer@)),
                self.data.tiles.buffer@.len() == old(self).data.tiles.buffer@.len(),
                forall|c: int|
                    0 <= c < old(self).data.tiles.buffer@.len() ==> homed(
                        old(self).data.tiles.buffer@[c],
                        #[trigger] self.data.tiles.buffer@[c],
                    ),
                self.wf(),
                phase_frame(*old(self), *self),
                win_follows(*old(self), *self),
                ids_kept(old(self).data.entities@, self.data.entities@),
                j <= to_remove@.len(),
                forall|r: int| 0 <= r < to_remove@.len() ==> #[trigger] to_remove@[r] != self.player_id,
                forall|l: int|
                    0 <= l < self.data.entities@.len() ==> marked(
                        to_remove@.subrange(j as int, to_remove@.len() as int),
                        (#[trigger] self.data.entities@[l]).0,
                    ) || consumed_tile(
                        self.data.entities@[l].1.kind,
                        self.data.tiles.tile_at(self.data.entities@[l].1.pos),
                    ) is None,
            decreases to_remove@.len() - j,
        {
            let id = to_remove[j];
            let ghost rest = to_remove@.subrange(j as int, to_remove@.len() as int);
            let ghost rest1 = to_remove@.subrange(j + 1, to_remove@.len() as int);
            proof {
                assert forall|x: u32| marked(rest, x) && x != id implies marked(rest1, x) by {
                    let r = choose|r: int| 0 <= r < rest.len() && rest[r] == x;
                    assert(r != 0);
                    assert(rest1[r - 1] == x);
                }
            }
            match self.data.entity_index(id) {
                Some(k) => {
                    let ghost before = self.data.entities@;
                    proof {
                        lemma_entry_index(before, k as int);
                    }
                    self.remove_entity(k);
                    proof {
                        let after = self.data.entities@;
                        assert forall|l: int| 0 <= l < after.len() implies marked(rest1, (#[trigger] after[l]).0)
                            || consumed_tile(after[l].1.kind, self.data.tiles.tile_at(after[l].1.pos)) is None by {
                            let l2 = if l < k { l } else { l + 1 };
                            assert(after[l] == before[l2]);
                            assert(l2 != k);
                            if l2 < k {
                                assert(before[l2].0 < before[k as int].0);
                            } else {
                                assert(before[k as int].0 < before[l2].0);
                            }
                        }
                    }
                    assert forall|l: int| 0 <= l < self.data.entities@.len() implies has_id(
                        old(self).data.entities@,
                        #[trigger] self.data.entities@[l].0,
                    ) by {
                        let l2 = if l < k { l } else { l + 1 };
                        assert(self.data.entities@[l] == before[l2]);
                    }
                },
                None => {
                    proof {
                        lemma_entry_index_none(self.data.entities@, id);
                        let s = self.data.entities@;
                        assert forall|l: int| 0 <= l < s.len() implies marked(rest1, (#[trigger] s[l]).0)
                            || consumed_tile(s[l].1.kind, self.data.tiles.tile_at(s[l].1.pos)) is None by {
                            assert(s[l].0 != id);
                        }
                    }
                },
            }
            j += 1;
        }
        proof {
            let s = self.data.entities@;
            assert forall|l: int| 0 <= l < s.len() implies consumed_tile(
                (#[trigger] s[l]).1.kind,
                self.data.tiles.tile_at(s[l].1.pos),
            ) is None by {
                if marked(to_remove@.subrange(j as int, to_remove@.len() as int), s[l].0) {
                    let r = choose|r: int|
                        0 <= r < to_remove@.subrange(j as int, to_remove@.len() as int).len()
                            && to_remove@.subrange(j as int, to_remove@.len() as int)[r] == s[l].0;
                }
            }
        }
    }

    /// Advances the level by one tick, as `tick_of` describes: resolves
    /// pushes (for at most `RESOLUTION_STEP_LIMIT` steps, besides the
    /// bail-out for a blocking move that is last in the list), executes the
    /// moves from the last to the first, and lets entities that reached their
    /// tiles be used up. Animation events for the renderer are appended to
    /// `animations`, and the sound cues of the tick to `sounds`: a push when
    /// anything was pushed, a footstep when the player gave input since the
    /// last tick. The moves left pending afterwards are those of entities
    /// sliding on over ice.
    pub fn update(&mut self, animations: &mut Vec<Animation>, sounds: &mut Vec<SoundId>)
        requires
            old(self).wf(),
        ensures
            final(self).wf(),
            final(self).undo_stack == old(self).undo_stack,
            final(self).player_id == old(self).player_id,
            final(self).entity_id_ctr == old(self).entity_id_ctr,
            final(self).data.tiles.width == old(self).data.tiles.width,
            final(self).data.tiles.height == old(self).data.tiles.height,
            win_follows(*old(self), *final(self)),
            ids_kept(old(self).data.entities@, final(self).data.entities@),
            settled(final(self).data),
            !final(self).data.has_input,
            final(self).n_tile_changes == bumped(
                old(self).n_tile_changes,
                changes(old(self).data.tiles.buffer@, final(self).data.tiles.buffer@),
            ),
            forall|c: int|
                0 <= c < old(self).data.tiles.buffer@.len() ==> tile_change_ok(
                    old(self).data.tiles.buffer@[c],
                    #[trigger] final(self).data.tiles.buffer@[c],
                ),
            final(sounds)@ == old(sounds)@ + cue_if(
                pushes_of(*old(self), old(animations)@).pushed,
                SoundId::Push,
            ) + cue_if(old(self).data.has_input, SoundId::SpiderWalk),
            ({
                let t = tick_of(*old(self), old(animations)@);
                &&& final(self).data.entities@ == t.entities
                &&& final(self).data.tiles.buffer@ == t.buffer
                &&& final(self).n_tile_changes == t.n_tile_changes
                &&& final(self).data.n_humans == t.n_humans
                &&& final(self).has_won == t.has_won
                &&& final(animations)@ == t.animations
                &&& final(self).data.active_events.moves@ == t.next
            }),
    {
        let ghost sounds0 = sounds@;
        let mut events = Events::new();
        std::mem::swap(&mut self.data.active_events, &mut events);
        let ghost start = *self;
        let ghost anims0 = animations@;
        proof {
            assert(snap(start, anims0, events.moves@, Seq::empty(), false) == snap(
                *old(self),
                anims0,
                old(self).data.active_events.moves@,
                Seq::empty(),
                false,
            ));
        }
        let pushed = self.resolve_pushes(&mut events.moves, animations);
        if pushed {
            sounds.push(SoundId::Push);
        }
        let ghost sounds1 = sounds@;
        let ghost after_push = *self;
        let next = self.execute_moves(&events.moves, animations, Ghost(pushed));
        let ghost after_moves = *self;
        proof {
            assert(after_push.data.tiles == old(self).data.tiles);
        }
        self.consume_tiles(
            animations,
            Ghost(events.moves@),
            Ghost(next@),
            Ghost(pushed),
            Ghost(old(self).data.tiles.buffer@),
            Ghost(old(self).n_tile_changes),
        );
        if self.data.has_input {
            sounds.push(SoundId::SpiderWalk);
            self.data.has_input = false;
        }
        self.data.active_events = Events { moves: next };
        proof {
            let walk = cue_if(old(self).data.has_input, SoundId::SpiderWalk);
            let push = cue_if(pushed, SoundId::Push);
            assert(sounds1 =~= sounds0 + push);
            assert forall|c: int| 0 <= c < old(self).data.tiles.buffer@.len() implies tile_change_ok(
                old(self).data.tiles.buffer@[c],
                #[trigger] self.data.tiles.buffer@[c],
            ) by {
                assert(spilt(old(self).data.tiles.buffer@[c], after_moves.data.tiles.buffer@[c]));
                assert(homed(after_moves.data.tiles.buffer@[c], self.data.tiles.buffer@[c]));
            }
            assert(sounds@ =~= sounds0 + push + walk);
            assert forall|j: int| 0 <= j < after_moves.data.entities@.len() implies has_id(
                old(self).data.entities@,
                #[trigger] after_moves.data.entities@[j].0,
            ) by {
                assert(after_moves.data.entities@[j].0 == after_push.data.entities@[j].0);
                assert(has_id(old(self).data.entities@, after_push.data.entities@[j].0));
            }
            assert forall|j: int| 0 <= j < self.data.entities@.len() implies has_id(
                old(self).data.entities@,
                #[trigger] self.data.entities@[j].0,
            ) by {
                assert(has_id(after_moves.data.entities@, self.data.entities@[j].0));
                let w = choose|l: int|
                    0 <= l < after_moves.data.entities@.len() && (
                    #[trigger] after_moves.data.entities@[l]).0 == self.data.entities@[j].0;
                assert(has_id(old(self).data.entities@, after_moves.data.entities@[w].0));
            }
        }
    }
}

} // verus!

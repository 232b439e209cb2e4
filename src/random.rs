use vstd::prelude::*;
use crate::entity::{Entity, EntityKind};
use crate::events::Events;
use crate::level::{
    Level, LevelData, count_humans, lemma_count_humans_append, lemma_count_humans_single,
    same_cell,
};
use crate::tile::{Tile, WallKind};
use crate::tilemap::Tilemap;

verus! {

/// Side of a generated level.
pub const RANDOM_SIZE: usize = 8;

/// Number of walls, ice tiles, homes and sad homes laid out first.
pub const N_WALL: usize = 7;
pub const N_ICE: usize = 5;
pub const N_HOUSE: usize = 3;
pub const N_SAD_HOUSE: usize = 2;

/// Number of buckets of goop, cakes beyond one per sad home, and humans
/// placed afterwards.
pub const N_GOOPS: usize = 3;
pub const N_EXTRA_CAKE: usize = 4;

/// Cells of the order that receive a special tile.
pub open spec fn n_laid() -> int {
    (N_WALL + N_ICE + N_HOUSE + N_SAD_HOUSE) as int
}

/// Entities placed: the player, the buckets, the cakes and the humans.
pub open spec fn n_placed() -> int {
    (1 + N_GOOPS + N_SAD_HOUSE + N_EXTRA_CAKE + N_HOUSE + N_SAD_HOUSE) as int
}

/// The tile laid on cell number `i` of the order.
pub open spec fn layout_tile(i: int) -> Tile {
    if i < N_WALL {
        Tile::Wall(WallKind::Void)
    } else if i < N_WALL + N_ICE {
        Tile::Ice
    } else if i < N_WALL + N_ICE + N_HOUSE {
        Tile::Home
    } else {
        Tile::SadHome
    }
}

/// The kind of the entity placed `j`-th.
pub open spec fn placed_kind(j: int) -> EntityKind {
    if j == 0 {
        EntityKind::Player
    } else if j < 1 + N_GOOPS {
        EntityKind::BucketOfGoop
    } else if j < 1 + N_GOOPS + N_SAD_HOUSE + N_EXTRA_CAKE {
        EntityKind::Cake
    } else {
        EntityKind::Human
    }
}

/// Whether `(x, y)` is solid once the special tiles are laid: outside the
/// grid, or one of the wall cells.
pub open spec fn walled(order: Seq<[isize; 2]>, x: int, y: int) -> bool {
    !(0 <= x < RANDOM_SIZE && 0 <= y < RANDOM_SIZE) || exists|i: int|
        0 <= i < N_WALL && (#[trigger] order[i])[0] == x && order[i][1] == y
}

/// Whether an entity may be placed on `p`: it is off the border, and not in
/// a corner formed by two solid neighbours at a right angle.
pub open spec fn candidate_ok(order: Seq<[isize; 2]>, p: [isize; 2]) -> bool {
    let x = p[0] as int;
    let y = p[1] as int;
    &&& 0 < x < RANDOM_SIZE - 1
    &&& 0 < y < RANDOM_SIZE - 1
    &&& !(walled(order, x - 1, y) && walled(order, x, y - 1))
    &&& !(walled(order, x + 1, y) && walled(order, x, y - 1))
    &&& !(walled(order, x - 1, y) && walled(order, x, y + 1))
    &&& !(walled(order, x + 1, y) && walled(order, x, y + 1))
}

/// The cells left after laying the special tiles that may take an entity,
/// in order.
pub open spec fn candidates(order: Seq<[isize; 2]>) -> Seq<[isize; 2]> {
    order.subrange(n_laid(), order.len() as int).filter(|p: [isize; 2]| candidate_ok(order, p))
}

/// `order` lists every cell of the grid once.
pub open spec fn is_cell_order(order: Seq<[isize; 2]>) -> bool {
    &&& order.len() == RANDOM_SIZE * RANDOM_SIZE
    &&& forall|i: int|
        0 <= i < order.len() ==> 0 <= (#[trigger] order[i])[0] < RANDOM_SIZE && 0 <= order[i][1]
            < RANDOM_SIZE
    &&& forall|i: int, j: int|
        0 <= i < j < order.len() ==> !same_cell(#[trigger] order[i], #[trigger] order[j])
}

/// Whether `p` is one of the cells of `order` from the special tiles up to
/// number `end`.
pub open spec fn in_tail(order: Seq<[isize; 2]>, end: int, p: [isize; 2]) -> bool {
    exists|m: int| n_laid() <= m < end && order[m] == p
}

/// Whether `(x, y)` is one of the wall cells.
fn is_wall_cell(order: &Vec<[isize; 2]>, x: isize, y: isize) -> (r: bool)
    requires
        is_cell_order(order@),
    ensures
        r == walled(order@, x as int, y as int),
{
    if x < 0 || x >= RANDOM_SIZE as isize || y < 0 || y >= RANDOM_SIZE as isize {
        return true;
    }
    let mut i: usize = 0;
    while i < N_WALL
        invariant
            i <= N_WALL,
            is_cell_order(order@),
            forall|j: int| 0 <= j < i ==> !((#[trigger] order@[j])[0] == x && order@[j][1] == y),
        decreases N_WALL - i,
    {
        let c = order[i];
        if c[0] == x && c[1] == y {
            return true;
        }
        i += 1;
    }
    false
}

fn is_candidate(order: &Vec<[isize; 2]>, p: [isize; 2]) -> (r: bool)
    requires
        is_cell_order(order@),
        0 <= p[0] < RANDOM_SIZE,
        0 <= p[1] < RANDOM_SIZE,
    ensures
        r == candidate_ok(order@, p),
{
    let x = p[0];
    let y = p[1];
    if x <= 0 || y <= 0 || x >= RANDOM_SIZE as isize - 1 || y >= RANDOM_SIZE as isize - 1 {
        return false;
    }
    let left = is_wall_cell(order, x - 1, y);
    let right = is_wall_cell(order, x + 1, y);
    let below = is_wall_cell(order, x, y - 1);
    let above = is_wall_cell(order, x, y + 1);
    !(left && below) && !(right && below) && !(left && above) && !(right && above)
}

/// The cells of `order` that may take an entity, in order.
fn candidate_cells(order: &Vec<[isize; 2]>) -> (r: Vec<[isize; 2]>)
    requires
        is_cell_order(order@),
    ensures
        r@ == candidates(order@),
        forall|j: int| 0 <= j < r@.len() ==> candidate_ok(order@, #[trigger] r@[j]),
        forall|j: int| 0 <= j < r@.len() ==> in_tail(order@, order@.len() as int, #[trigger] r@[j]),
        forall|a: int, b: int| 0 <= a < b < r@.len() ==> !same_cell(#[trigger] r@[a], #[trigger] r@[b]),
{
    let ghost pred = |p: [isize; 2]| candidate_ok(order@, p);
    let mut r: Vec<[isize; 2]> = Vec::new();
    let mut i: usize = N_WALL + N_ICE + N_HOUSE + N_SAD_HOUSE;
    proof {
        reveal(Seq::filter);
        assert(order@.subrange(n_laid(), n_laid()).filter(pred) =~= Seq::<[isize; 2]>::empty());
    }
    while i < order.len()
        invariant
            n_laid() <= i <= order@.len(),
            is_cell_order(order@),
            pred == (|p: [isize; 2]| candidate_ok(order@, p)),
            r@ == order@.subrange(n_laid(), i as int).filter(pred),
            forall|j: int| 0 <= j < r@.len() ==> candidate_ok(order@, #[trigger] r@[j]),
            forall|j: int| 0 <= j < r@.len() ==> in_tail(order@, i as int, #[trigger] r@[j]),
            forall|a: int, b: int| 0 <= a < b < r@.len() ==> !same_cell(#[trigger] r@[a], #[trigger] r@[b]),
        decreases order@.len() - i,
    {
        let p = order[i];
        let ok = is_candidate(order, p);
        proof {
            reveal(Seq::filter);
            assert(order@.subrange(n_laid(), i + 1).drop_last() =~= order@.subrange(n_laid(), i as int));
            assert(order@.subrange(n_laid(), i + 1).last() == p);
        }
        let ghost r0 = r@;
        if ok {
            proof {
                assert forall|a: int| 0 <= a < r@.len() implies !same_cell(#[trigger] r@[a], p) by {
                    assert(in_tail(order@, i as int, r@[a]));
                    let m = choose|m: int| n_laid() <= m < i && order@[m] == r@[a];
                    assert(!same_cell(order@[m], order@[i as int]));
                }
            }
            r.push(p);
            proof {
                assert forall|j: int| 0 <= j < r@.len() implies in_tail(order@, i + 1, #[trigger] r@[j]) by {
                    if j < r0.len() {
                        assert(r@[j] == r0[j]);
                        assert(in_tail(order@, i as int, r0[j]));
                    } else {
                        assert(r@[j] == order@[i as int]);
                    }
                }
            }
        }
        i += 1;
    }
    proof {
        assert(order@.subrange(n_laid(), order@.len() as int) =~= order@.subrange(n_laid(), i as int));
    }
    r
}

/// Whether cell `q` is among the first `n` cells of the order.
pub open spec fn laid(order: Seq<[isize; 2]>, n: int, q: [isize; 2]) -> bool {
    exists|i: int| 0 <= i < n && same_cell(#[trigger] order[i], q)
}

/// Whether cell `q` holds one of the buckets of goop among the first `n`
/// entities placed on `cells`.
pub open spec fn gooped(cells: Seq<[isize; 2]>, n: int, q: [isize; 2]) -> bool {
    exists|j: int| 1 <= j < n && j < 1 + N_GOOPS && same_cell(#[trigger] cells[j], q)
}

/// The tile layout after laying the first `n` special tiles of `order`.
pub open spec fn laid_out(t: Tilemap, order: Seq<[isize; 2]>, n: int) -> bool {
    &&& t.wf()
    &&& t.width == RANDOM_SIZE
    &&& t.height == RANDOM_SIZE
    &&& forall|i: int| 0 <= i < n ==> t.tile_at(#[trigger] order[i]) == layout_tile(i)
    &&& forall|q: [isize; 2]| t.in_bounds(q) && !laid(order, n, q) ==> #[trigger] t.tile_at(q) == Tile::Floor
}

/// Level `l` is the one generated from `order`: the special tiles on the
/// first cells of the order, then the player, the buckets of goop (each on
/// goop), the cakes and the humans on the candidate cells in order.
pub open spec fn random_level(l: Level, order: Seq<[isize; 2]>) -> bool {
    let c = candidates(order);
    let t = l.data.tiles;
    let s = l.data.entities@;
    &&& t.width == RANDOM_SIZE
    &&& t.height == RANDOM_SIZE
    &&& forall|i: int| 0 <= i < n_laid() ==> t.tile_at(#[trigger] order[i]) == layout_tile(i)
    &&& forall|j: int| 1 <= j < 1 + N_GOOPS ==> t.tile_at(#[trigger] c[j]) == Tile::FloorWithGoop
    &&& forall|q: [isize; 2]|
        t.in_bounds(q) && !laid(order, n_laid(), q) && !gooped(c, n_placed(), q) ==> #[trigger] t.tile_at(q)
            == Tile::Floor
    &&& s.len() == n_placed()
    &&& forall|j: int|
        0 <= j < s.len() ==> (#[trigger] s[j]).0 == j && same_cell(s[j].1.pos, c[j]) && s[j].1.kind
            == placed_kind(j) && !s[j].1.is_sliding
    &&& l.player_id == 0
    &&& l.entity_id_ctr == n_placed()
    &&& l.data.n_humans == N_HOUSE + N_SAD_HOUSE
    &&& l.data.active_events.moves@.len() == 0
    &&& l.undo_stack@.len() == 0
    &&& l.n_tile_changes == 0
    &&& !l.has_won
    &&& !l.data.has_input
}

/// A grid of floor.
fn floor_map() -> (t: Tilemap)
    ensures
        laid_out(t, Seq::empty(), 0),
{
    let mut buffer: Vec<Tile> = Vec::new();
    let mut k: usize = 0;
    while k < RANDOM_SIZE * RANDOM_SIZE
        invariant
            k <= RANDOM_SIZE * RANDOM_SIZE,
            buffer@.len() == k,
            forall|j: int| 0 <= j < k ==> buffer@[j] == Tile::Floor,
        decreases RANDOM_SIZE * RANDOM_SIZE - k,
    {
        buffer.push(Tile::Floor);
        k += 1;
    }
    let t = Tilemap { width: RANDOM_SIZE, height: RANDOM_SIZE, buffer };
    proof {
        assert forall|q: [isize; 2]| t.in_bounds(q) && !laid(Seq::empty(), 0, q) implies #[trigger] t.tile_at(q) == Tile::Floor by {
            t.lemma_index_in_range(q);
        }
    }
    t
}

fn layout_tile_exec(i: usize) -> (t: Tile)
    ensures
        t == layout_tile(i as int),
{
    if i < N_WALL {
        Tile::Wall(WallKind::Void)
    } else if i < N_WALL + N_ICE {
        Tile::Ice
    } else if i < N_WALL + N_ICE + N_HOUSE {
        Tile::Home
    } else {
        Tile::SadHome
    }
}

/// Lays the walls, ice, homes and sad homes on the first cells of `order`.
fn lay_tiles(order: &Vec<[isize; 2]>) -> (t: Tilemap)
    requires
        is_cell_order(order@),
    ensures
        laid_out(t, order@, n_laid()),
{
    let mut t = floor_map();
    let mut i: usize = 0;
    while i < N_WALL + N_ICE + N_HOUSE + N_SAD_HOUSE
        invariant
            i <= n_laid(),
            is_cell_order(order@),
            laid_out(t, order@, i as int),
        decreases n_laid() - i,
    {
        let p = order[i];
        let ghost t0 = t;
        t.set_tile(p, layout_tile_exec(i));
        proof {
            assert forall|k: int| 0 <= k < i + 1 implies t.tile_at(#[trigger] order@[k]) == layout_tile(k) by {
                if k < i {
                    assert(!same_cell(order@[k], order@[i as int]));
                    assert(t0.tile_at(order@[k]) == layout_tile(k));
                }
            }
            assert forall|q: [isize; 2]| t.in_bounds(q) && !laid(order@, i + 1, q) implies #[trigger] t.tile_at(q) == Tile::Floor by {
                if same_cell(order@[i as int], q) {
                    assert(laid(order@, i + 1, q));
                }
                if laid(order@, i as int, q) {
                    let w = choose|w: int| 0 <= w < i && same_cell(#[trigger] order@[w], q);
                    assert(laid(order@, i + 1, q));
                }
                assert(t0.tile_at(q) == Tile::Floor);
            }
        }
        i += 1;
    }
    t
}

impl Level {
    /// A random level on an 8 by 8 grid, generated from `order`, the cells
    /// of the grid in random order: walls, ice, homes and sad homes go to
    /// the first cells; the player, buckets of goop, cakes and humans to the
    /// cells after them that lie off the border and outside wall corners.
    /// `None` when too few such cells are left.
    pub fn randomized(order: &Vec<[isize; 2]>) -> (r: Option<Level>)
        requires
            is_cell_order(order@),
        ensures
            (r is Some) == (candidates(order@).len() >= n_placed()),
            r matches Some(l) ==> l.wf() && random_level(l, order@),
    {
        let mut tiles = lay_tiles(order);
        let cells = candidate_cells(order);
        if cells.len() < 1 + N_GOOPS + N_SAD_HOUSE + N_EXTRA_CAKE + N_HOUSE + N_SAD_HOUSE {
            return None;
        }
        let ghost c = cells@;
        let mut entities: Vec<(u32, Entity)> = Vec::new();
        let mut n_humans: usize = 0;
        let mut j: usize = 0;
        while j < 1 + N_GOOPS + N_SAD_HOUSE + N_EXTRA_CAKE + N_HOUSE + N_SAD_HOUSE
            invariant
                j <= n_placed(),
                is_cell_order(order@),
                c == cells@,
                c == candidates(order@),
                c.len() >= n_placed(),
                forall|k: int| 0 <= k < c.len() ==> candidate_ok(order@, #[trigger] c[k]),
                forall|k: int| 0 <= k < cells@.len() ==> in_tail(order@, order@.len() as int, #[trigger] cells@[k]),
                forall|a: int, b: int| 0 <= a < b < cells@.len() ==> !same_cell(#[trigger] cells@[a], #[trigger] cells@[b]),
                tiles.wf(),
                tiles.width == RANDOM_SIZE,
                tiles.height == RANDOM_SIZE,
                forall|i: int| 0 <= i < n_laid() ==> tiles.tile_at(#[trigger] order@[i]) == layout_tile(i),
                forall|k: int| 1 <= k < j && k < 1 + N_GOOPS ==> tiles.tile_at(#[trigger] c[k]) == Tile::FloorWithGoop,
                forall|q: [isize; 2]|
                    tiles.in_bounds(q) && !laid(order@, n_laid(), q) && !gooped(c, j as int, q) ==> #[trigger] tiles.tile_at(q)
                        == Tile::Floor,
                entities@.len() == j,
                forall|k: int|
                    0 <= k < j ==> (#[trigger] entities@[k]).0 == k && same_cell(entities@[k].1.pos, c[k])
                        && entities@[k].1.kind == placed_kind(k) && !entities@[k].1.is_sliding,
                n_humans == count_humans(entities@),
                n_humans <= j,
                j >= 1 + N_GOOPS + N_SAD_HOUSE + N_EXTRA_CAKE ==> n_humans == j - (1 + N_GOOPS + N_SAD_HOUSE + N_EXTRA_CAKE),
                j < 1 + N_GOOPS + N_SAD_HOUSE + N_EXTRA_CAKE ==> n_humans == 0,
            decreases n_placed() - j,
        {
            let p = cells[j];
            let kind = if j == 0 {
                EntityKind::Player
            } else if j < 1 + N_GOOPS {
                EntityKind::BucketOfGoop
            } else if j < 1 + N_GOOPS + N_SAD_HOUSE + N_EXTRA_CAKE {
                EntityKind::Cake
            } else {
                EntityKind::Human
            };
            let e = Entity::new(p[0], p[1], kind);
            let ghost s0 = entities@;
            proof {
                lemma_count_humans_append(s0, seq![(j as u32, e)]);
                lemma_count_humans_single((j as u32, e));
            }
            entities.push((j as u32, e));
            proof {
                assert(entities@ == s0 + seq![(j as u32, e)]);
            }
            if kind == EntityKind::Human {
                n_humans = n_humans + 1;
            }
            let ghost t0 = tiles;
            if kind == EntityKind::BucketOfGoop {
                tiles.set_tile(p, Tile::FloorWithGoop);
                proof {
                    assert(in_tail(order@, order@.len() as int, cells@[j as int]));
                    let m = choose|m: int| n_laid() <= m < order@.len() && order@[m] == cells@[j as int];
                    assert forall|i: int| 0 <= i < n_laid() implies tiles.tile_at(#[trigger] order@[i]) == layout_tile(i) by {
                        assert(!same_cell(order@[i], order@[m]));
                        t0.lemma_index_injective(order@[i], p);
                    }
                    assert forall|k: int| 1 <= k < j + 1 && k < 1 + N_GOOPS implies tiles.tile_at(#[trigger] c[k]) == Tile::FloorWithGoop by {
                        if k < j && !same_cell(c[k], p) {
                            t0.lemma_index_injective(c[k], p);
                        }
                    }
                    assert forall|q: [isize; 2]|
                        tiles.in_bounds(q) && !laid(order@, n_laid(), q) && !gooped(c, j + 1, q) implies #[trigger] tiles.tile_at(q)
                            == Tile::Floor by {
                        assert(!same_cell(c[j as int], q));
                        t0.lemma_index_injective(q, p);
                        t0.lemma_index_in_range(q);
                        assert(!gooped(c, j as int, q));
                        assert(t0.tile_at(q) == Tile::Floor);
                    }
                }
            } else {
                proof {
                    assert forall|q: [isize; 2]|
                        tiles.in_bounds(q) && !laid(order@, n_laid(), q) && !gooped(c, j + 1, q) implies #[trigger] tiles.tile_at(q)
                            == Tile::Floor by {
                        assert(!gooped(c, j as int, q));
                    }
                }
            }
            j += 1;
        }
        let level = Level {
            n_tile_changes: 0,
            entity_id_ctr: j as u32,
            has_won: false,
            data: LevelData {
                entities,
                active_events: Events::new(),
                tiles,
                n_humans,
                has_input: false,
            },
            undo_stack: Vec::new(),
            player_id: 0,
        };
        proof {
            let s = level.data.entities@;
            assert forall|a: int, b: int| 0 <= a < b < s.len() implies (#[trigger] s[a]).0 < (#[trigger] s[b]).0 by {}
            assert(s[0].0 == 0 && s[0].1.kind == EntityKind::Player);
            assert forall|a: int, b: int| 0 <= a < b < s.len() implies !same_cell((#[trigger] s[a]).1.pos, (#[trigger] s[b]).1.pos) by {
                assert(!same_cell(cells@[a], cells@[b]));
            }
        }
        Some(level)
    }
}

} // verus!

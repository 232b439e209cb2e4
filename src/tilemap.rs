use vstd::prelude::*;
use crate::tile::{Tile, TileGraphics, layer_connects};

verus! {

/// A fixed-size grid of tiles, stored row by row from the bottom row up.
#[derive(Clone, Debug)]
pub struct Tilemap {
    pub width: usize,
    pub height: usize,
    pub buffer: Vec<Tile>,
}

impl Tilemap {
    /// The buffer holds exactly one tile per cell, and every coordinate fits
    /// in an `isize`.
    pub open spec fn wf(&self) -> bool {
        &&& self.buffer@.len() == self.width * self.height
        &&& self.width <= isize::MAX
        &&& self.height <= isize::MAX
    }

    pub open spec fn in_bounds(&self, pos: [isize; 2]) -> bool {
        0 <= pos[0] < self.width && 0 <= pos[1] < self.height
    }

    /// Position of cell `pos` in the buffer.
    pub open spec fn index_of(&self, pos: [isize; 2]) -> int {
        pos[0] + pos[1] * self.width
    }

    /// The tile at an in-bounds cell.
    pub open spec fn tile_at(&self, pos: [isize; 2]) -> Tile {
        self.buffer@[self.index_of(pos)]
    }

    pub proof fn lemma_index_in_range(&self, pos: [isize; 2])
        requires
            self.wf(),
            self.in_bounds(pos),
        ensures
            0 <= pos[1] * self.width <= self.index_of(pos) < self.buffer@.len() <= usize::MAX,
    {
        broadcast use vstd::std_specs::vec::axiom_spec_len;

        assert(self.buffer@.len() == self.buffer.len());

        let x = pos[0] as int;
        let y = pos[1] as int;
        let w = self.width as int;
        let h = self.height as int;
        assert(0 <= y * w <= x + y * w < w * h) by (nonlinear_arith)
            requires
                0 <= x < w,
                0 <= y < h,
        ;
    }

    /// Distinct in-bounds cells have distinct places in the buffer.
    pub proof fn lemma_index_injective(&self, p: [isize; 2], q: [isize; 2])
        requires
            self.in_bounds(p),
            self.in_bounds(q),
            !(p[0] == q[0] && p[1] == q[1]),
        ensures
            self.index_of(p) != self.index_of(q),
    {
        let w = self.width as int;
        let (px, py, qx, qy) = (p[0] as int, p[1] as int, q[0] as int, q[1] as int);
        if py == qy {
        } else if py < qy {
            assert(px + py * w < qx + qy * w) by (nonlinear_arith)
                requires
                    0 <= px < w,
                    0 <= qx,
                    py < qy,
            ;
        } else {
            assert(qx + qy * w < px + py * w) by (nonlinear_arith)
                requires
                    0 <= qx < w,
                    0 <= px,
                    qy < py,
            ;
        }
    }

    /// The tile at `pos`, or `None` when `pos` lies outside the grid.
    pub fn get_tile(&self, pos: [isize; 2]) -> (r: Option<Tile>)
        requires
            self.wf(),
        ensures
            r == if self.in_bounds(pos) {
                Some(self.tile_at(pos))
            } else {
                None::<Tile>
            },
    {
        if pos[0] < 0 || pos[0] as usize >= self.width || pos[1] < 0 || pos[1] as usize
            >= self.height {
            return None;
        }
        proof {
            self.lemma_index_in_range(pos);
        }
        let i = pos[0] as usize + pos[1] as usize * self.width;
        Some(self.buffer[i])
    }

    /// Writes one in-bounds cell; every other cell keeps its tile.
    pub fn set_tile(&mut self, pos: [isize; 2], tile: Tile)
        requires
            old(self).wf(),
            old(self).in_bounds(pos),
        ensures
            final(self).wf(),
            final(self).width == old(self).width,
            final(self).height == old(self).height,
            final(self).buffer@ == old(self).buffer@.update(old(self).index_of(pos), tile),
            forall|q: [isize; 2]|
                old(self).in_bounds(q) ==> #[trigger] final(self).tile_at(q) == if q[0] == pos[0]
                    && q[1] == pos[1] {
                    tile
                } else {
                    old(self).tile_at(q)
                },
    {
        proof {
            self.lemma_index_in_range(pos);
            assert forall|q: [isize; 2]| self.in_bounds(q) && !(q[0] == pos[0] && q[1] == pos[1]) implies self.index_of(q) != self.index_of(pos) && 0 <= self.index_of(q) < self.buffer@.len() by {
                self.lemma_index_injective(q, pos);
                self.lemma_index_in_range(q);
            }
        }
        let i = pos[0] as usize + pos[1] as usize * self.width;
        self.buffer.set(i, tile);
    }
}

/// Whether cell `(x, y)` of `t` lies inside the grid and joins up with a
/// neighbouring tilemap layer `layer`.
pub open spec fn joins(t: Tilemap, layer: TileGraphics, x: int, y: int) -> bool {
    0 <= x < t.width && 0 <= y < t.height && layer_connects(layer, t.buffer@[x + y * t.width])
}

impl Tilemap {
    /// Whether cell `(x, y)` joins up with layer `layer`; cells outside the
    /// grid never do.
    pub fn joins_at(&self, layer: TileGraphics, x: isize, y: isize) -> (r: bool)
        requires
            self.wf(),
        ensures
            r == joins(*self, layer, x as int, y as int),
    {
        match self.get_tile([x, y]) {
            Some(t) => layer.connects_to_tile(t),
            None => false,
        }
    }

    /// The 3 by 3 neighbourhood of cell `(x, y)` for drawing layer `layer`,
    /// row by row from the bottom: entry `i + 3 * j` (for `i` and `j` below 3) tells whether cell
    /// `(x + i - 1, y + j - 1)` joins up with the layer.
    pub fn neighbourhood(&self, layer: TileGraphics, x: isize, y: isize) -> (r: [bool; 9])
        requires
            self.wf(),
            isize::MIN < x < isize::MAX,
            isize::MIN < y < isize::MAX,
        ensures
            r[0] == joins(*self, layer, x as int - 1, y as int - 1),
            r[1] == joins(*self, layer, x as int, y as int - 1),
            r[2] == joins(*self, layer, x as int + 1, y as int - 1),
            r[3] == joins(*self, layer, x as int - 1, y as int),
            r[4] == joins(*self, layer, x as int, y as int),
            r[5] == joins(*self, layer, x as int + 1, y as int),
            r[6] == joins(*self, layer, x as int - 1, y as int + 1),
            r[7] == joins(*self, layer, x as int, y as int + 1),
            r[8] == joins(*self, layer, x as int + 1, y as int + 1),
    {
        let r = [
            self.joins_at(layer, x - 1, y - 1),
            self.joins_at(layer, x, y - 1),
            self.joins_at(layer, x + 1, y - 1),
            self.joins_at(layer, x - 1, y),
            self.joins_at(layer, x, y),
            self.joins_at(layer, x + 1, y),
            self.joins_at(layer, x - 1, y + 1),
            self.joins_at(layer, x, y + 1),
            self.joins_at(layer, x + 1, y + 1),
        ];
        r
    }
}

} // verus!

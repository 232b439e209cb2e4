use vstd::prelude::*;
use crate::direction::{Direction, dx, dy};
use crate::entity::EntityKind;

verus! {

/// How a successful move is animated.
#[derive(Clone, Copy, Debug, PartialEq, Eq, Structural)]
pub enum AnimationMoveKind {
    Standard,
    IceKick,
    Apply,
}

/// One event of the feed that the renderer replays.
#[derive(Clone, Copy, Debug)]
pub enum Animation {
    Move {
        entity_id: u32,
        from: [isize; 2],
        to: [isize; 2],
        accelerate: bool,
        decelerate: bool,
        kind: AnimationMoveKind,
    },
    FailedMove { entity_id: u32, from: [isize; 2], to: [isize; 2], accelerate: bool },
    Goopify { entity_id: u32, kind: EntityKind },
}

/// A request that one entity moves one cell from `from` in `direction`.
/// A friction push is one made by something standing on solid ground.
#[derive(Clone, Copy, Debug)]
pub struct MoveEntity {
    pub is_friction_push: bool,
    pub entity_id: u32,
    pub from: [isize; 2],
    pub direction: Direction,
}

/// The cell one step from `p` in direction `d`.
pub open spec fn step(p: [isize; 2], d: Direction) -> (int, int) {
    (p[0] + dx(d), p[1] + dy(d))
}

/// Whether the cell `q` is the cell `p` as integers.
pub open spec fn at(q: [isize; 2], p: (int, int)) -> bool {
    q[0] == p.0 && q[1] == p.1
}

/// Coordinates that can take one step in any direction.
pub open spec fn steppable(p: [isize; 2]) -> bool {
    isize::MIN < p[0] < isize::MAX && isize::MIN < p[1] < isize::MAX
}

/// The destination cell of move `m`.
pub open spec fn dest(m: MoveEntity) -> [isize; 2] {
    match m.direction {
        Direction::Right => [(m.from[0] + 1) as isize, m.from[1]],
        Direction::Up => [m.from[0], (m.from[1] + 1) as isize],
        Direction::Left => [(m.from[0] - 1) as isize, m.from[1]],
        Direction::Down => [m.from[0], (m.from[1] - 1) as isize],
    }
}

impl MoveEntity {
    /// A move that is not a friction push.
    pub fn new(entity_id: u32, from: [isize; 2], direction: Direction) -> (r: Self)
        ensures
            r.entity_id == entity_id,
            r.from == from,
            r.direction == direction,
            !r.is_friction_push,
    {
        MoveEntity { is_friction_push: false, entity_id, from, direction }
    }

    /// The destination cell.
    pub fn to(&self) -> (r: [isize; 2])
        requires
            steppable(self.from),
        ensures
            at(r, step(self.from, self.direction)),
            r == dest(*self),
    {
        match self.direction {
            Direction::Right => [self.from[0] + 1, self.from[1]],
            Direction::Up => [self.from[0], self.from[1] + 1],
            Direction::Left => [self.from[0] - 1, self.from[1]],
            Direction::Down => [self.from[0], self.from[1] - 1],
        }
    }
}

/// The pending moves, in the order in which they were requested.
#[derive(Clone, Debug)]
pub struct Events {
    pub moves: Vec<MoveEntity>,
}

impl Events {
    pub fn new() -> (r: Events)
        ensures
            r.moves@.len() == 0,
    {
        Events { moves: Vec::new() }
    }

    /// Whether no move is pending.
    pub fn empty(&self) -> (r: bool)
        ensures
            r == (self.moves@.len() == 0),
    {
        self.moves.len() == 0
    }
}

} // verus!

use vstd::prelude::*;

verus! {

/// One of the four grid directions.
#[derive(Clone, Copy, Debug, PartialEq, Eq, Structural, Hash)]
pub enum Direction {
    Left,
    Right,
    Up,
    Down,
}

/// The semantic intents a driver hands to the game.
#[derive(Clone, Copy, Debug, PartialEq, Eq, Structural, Hash)]
pub enum Input {
    Move(Direction),
    Confirm,
    Undo,
    Restart,
    NextLevel,
    PrevLevel,
    Randomize,
}

/// Horizontal component of one step in direction `d`.
pub open spec fn dx(d: Direction) -> int {
    match d {
        Direction::Right => 1,
        Direction::Left => -1,
        _ => 0,
    }
}

/// Vertical component of one step in direction `d` (up is +y).
pub open spec fn dy(d: Direction) -> int {
    match d {
        Direction::Up => 1,
        Direction::Down => -1,
        _ => 0,
    }
}

} // verus!

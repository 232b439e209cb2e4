use vstd::prelude::*;
use crate::direction::{Direction, Input};

verus! {

/// The way a newly loaded level slides into view.
#[derive(Clone, Copy, Debug, PartialEq, Eq, Structural)]
pub enum Slide {
    /// From the side, for a random level.
    Sideways,
    /// From below, going back to an earlier level.
    Back,
    /// From above, going on to a later level.
    Forward,
}

/// Why an intent was turned down.
#[derive(Clone, Copy, Debug, PartialEq, Eq, Structural)]
pub enum Refusal {
    NoPreviousLevel,
    NoMoreLevels,
}

/// What the driver does in answer to an intent.
#[derive(Clone, Copy, Debug, PartialEq, Eq, Structural)]
pub enum Action {
    /// Generate a random level and slide it in.
    Randomize,
    /// Undo the last move of the current level.
    Undo,
    /// Switch to level number `level`, sliding it in.
    Load { level: usize, slide: Slide },
    /// Start level number `level` again, in place.
    Restart { level: usize },
    /// Remember a move for the next tick.
    Queue(Direction),
    /// Nothing happens.
    Refuse(Refusal),
}

/// The answer to `input` while playing level `current` of `n_levels`.
pub open spec fn input_action(input: Input, current: nat, n_levels: nat, has_won: bool) -> Action {
    match input {
        Input::Randomize => Action::Randomize,
        Input::Undo => Action::Undo,
        Input::Restart => Action::Restart { level: current as usize },
        Input::PrevLevel => if current > 0 {
            Action::Load { level: (current - 1) as usize, slide: Slide::Back }
        } else {
            Action::Refuse(Refusal::NoPreviousLevel)
        },
        Input::Confirm => if has_won {
            next_level_action(current, n_levels)
        } else {
            Action::Restart { level: current as usize }
        },
        Input::NextLevel => next_level_action(current, n_levels),
        Input::Move(d) => Action::Queue(d),
    }
}

/// Going on from level `current`: the next level, when there is one.
pub open spec fn next_level_action(current: nat, n_levels: nat) -> Action {
    if current + 1 < n_levels {
        Action::Load { level: (current + 1) as usize, slide: Slide::Forward }
    } else {
        Action::Refuse(Refusal::NoMoreLevels)
    }
}

/// Decides what an intent does while level `current` of `n_levels` is
/// played; `has_won` tells whether that level has been won.
pub fn decide_input(input: Input, current: usize, n_levels: usize, has_won: bool) -> (r: Action)
    requires
        current < n_levels,
    ensures
        r == input_action(input, current as nat, n_levels as nat, has_won),
{
    match input {
        Input::Randomize => Action::Randomize,
        Input::Undo => Action::Undo,
        Input::Restart => Action::Restart { level: current },
        Input::PrevLevel => {
            if current > 0 {
                Action::Load { level: current - 1, slide: Slide::Back }
            } else {
                Action::Refuse(Refusal::NoPreviousLevel)
            }
        },
        Input::Confirm => {
            if has_won {
                next_level(current, n_levels)
            } else {
                Action::Restart { level: current }
            }
        },
        Input::NextLevel => next_level(current, n_levels),
        Input::Move(d) => Action::Queue(d),
    }
}

fn next_level(current: usize, n_levels: usize) -> (r: Action)
    requires
        current < n_levels,
    ensures
        r == next_level_action(current as nat, n_levels as nat),
{
    if current < n_levels - 1 {
        Action::Load { level: current + 1, slide: Slide::Forward }
    } else {
        Action::Refuse(Refusal::NoMoreLevels)
    }
}

/// The level that follows a won level `current` of `n_levels`: the next
/// one, or the first after the last.
pub fn level_after_win(current: usize, n_levels: usize) -> (r: usize)
    requires
        current < n_levels,
    ensures
        r == if current + 1 < n_levels {
            current + 1
        } else {
            0
        },
        r < n_levels,
{
    if current < n_levels - 1 {
        current + 1
    } else {
        0
    }
}

} // verus!

use vstd::prelude::*;

verus! {

/// Sound cues that the simulation asks the audio layer to play.
#[derive(Clone, Copy, Debug, PartialEq, Eq, Structural, Hash)]
pub enum SoundId {
    Music,
    Push,
    SpiderWalk,
}

} // verus!

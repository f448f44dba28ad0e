//! One-shot commands the settings panel can queue for the next frame.

use vstd::prelude::*;

verus! {

/// A user-triggered action applied exactly once on the next simulation
/// tick, however many times it was queued since the last one.
#[derive(Debug, Clone, Copy, PartialEq, Eq, Structural, Hash)]
pub enum ParticleEvent {
    RandomizePositions,
    RandomizeColors,
}

} // verus!

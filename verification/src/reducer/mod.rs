pub mod summaries;
pub mod feedback;
pub mod beat_advance;
pub mod observation;
pub mod surround;
pub mod combat;
pub mod handlers;

use vstd::prelude::*;
use crate::narrative::NarrativeLines;
use crate::state::GamePhase;

verus! {

/// What applying a turn's events hands back: the lines told, and the phase
/// the game is in afterwards.
pub struct ReducerOutput {
    pub lines: NarrativeLines,
    pub phase: GamePhase,
}

} // verus!
pub mod actor_commands;
pub mod attacks;

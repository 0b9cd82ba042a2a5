use vstd::prelude::*;
use crate::content::ContentPack;
use crate::narrative::{NarrativeLine, NarrativeLineKind, NarrativeLines};
use crate::state::{GamePhase, WorldState};

verus! {

/// Closes the current act.
pub fn handle_act_ended(state: &mut WorldState, _content: &ContentPack, _lines: &mut NarrativeLines)
    ensures
        *final(state) == (WorldState { phase: GamePhase::ActEnded, ..*old(state) }),
        *final(_lines) == *old(_lines),
{
    state.phase = GamePhase::ActEnded;
}

/// Tells a line of narration as it is.
pub fn handle_narrative_line(text: &str, lines: &mut NarrativeLines)
    ensures
        final(lines).0@ == old(lines).0@.push(NarrativeLine { kind: NarrativeLineKind::Narration, text: final(lines).0@.last().text }),
        final(lines).0@.last().text@ == text@,
{
    lines.narration(crate::text::string_of(text));
}

} // verus!

use vstd::prelude::*;
use crate::closure::name_for;
use crate::content::ContentPack;
use crate::narrative::{NarrativeLineKind, NarrativeLines};
use crate::state::WorldState;
use crate::state::appointments::display_actor_name;
use crate::text::{chars_of, is_blank, str_replace, string_from_chars, string_of, text_is_blank};

verus! {

pub open spec fn opt_text(t: Option<&str>) -> Option<Seq<char>> {
    match t {
        Some(s) => Some(s@),
        None => None,
    }
}

/// The line told when the player starts following an actor (the pack's
/// line with the actor's name), or stops following.
pub open spec fn follow_feedback(content: &ContentPack, state: &WorldState, actor_id: Option<Seq<char>>) -> Seq<char> {
    match actor_id {
        Some(id) => str_replace(content.ui_text.follow_actor_transcript@, "{title}"@, name_for(content, state, id)),
        None => content.ui_text.follow_actor_stop_transcript@,
    }
}

/// The player starts following an actor, or stops following, and is told
/// so unless the pack's line is blank.
pub fn handle_player_followed_actor(state: &mut WorldState, content: &ContentPack, actor_id: Option<&str>, lines: &mut NarrativeLines)
    requires
        old(state).wf(),
    ensures
        final(state).wf(),
        opt_text(actor_id) == match final(state).followed_actor_id { Some(s) => Some(s@), None => None::<Seq<char>> },
        *final(state) == (WorldState { followed_actor_id: final(state).followed_actor_id, ..*old(state) }),
        ({
            let t = follow_feedback(content, &*final(state), opt_text(actor_id));
            final(lines).views() == if is_blank(t) { old(lines).views() } else { old(lines).views().push((NarrativeLineKind::Narration, t)) }
        }),
{
    state.followed_actor_id = match actor_id {
        Some(id) => Some(string_of(id)),
        None => None,
    };
    let feedback = match actor_id {
        Some(id) => {
            let name = match content.actor(id) {
                Some(a) => display_actor_name(state, a),
                None => string_of(id),
            };
            let replaced = crate::text::replace_text(&chars_of(content.ui_text.follow_actor_transcript.as_str()), &chars_of("{title}"),
                &chars_of(name.as_str()));
            string_from_chars(&replaced)
        },
        None => content.ui_text.follow_actor_stop_transcript.clone(),
    };
    if !text_is_blank(feedback.as_str()) {
        let ghost t = feedback@;
        lines.narration(feedback);
        assert(lines.views() =~= old(lines).views().push((NarrativeLineKind::Narration, t)));
    }
}

} // verus!

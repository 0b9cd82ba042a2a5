use vstd::prelude::*;
use crate::content::{ContentPack, PackMessageVoice};
use crate::narrative::{NarrativeLine, NarrativeLineKind, NarrativeLines};
use crate::text::{pair_views, text_is_blank};

verus! {

/// The style a message of the given voice is shown in.
pub open spec fn voice_kind(voice: PackMessageVoice) -> NarrativeLineKind {
    match voice {
        PackMessageVoice::System => NarrativeLineKind::System,
        _ => NarrativeLineKind::Narration,
    }
}

/// Pushes an already-rendered message in the style of its voice.
pub fn push_rendered_message(lines: &mut NarrativeLines, content: &ContentPack, text: String, voice: PackMessageVoice)
    ensures
        final(lines).0@ == old(lines).0@.push(NarrativeLine { kind: voice_kind(voice), text: text }),
{
    match voice {
        PackMessageVoice::System => lines.system(text),
        _ => lines.narration(text),
    }
}

/// The line a pack message yields, if any: none when the pack lacks the
/// message or it renders blank.
pub open spec fn message_line(content: &ContentPack, key: Seq<char>, replacements: Seq<(Seq<char>, Seq<char>)>) -> Option<(NarrativeLineKind, Seq<char>)> {
    match content.spec_render_message(key, replacements) {
        Some(t) => if crate::text::is_blank(t) { None } else { Some((voice_kind(content.spec_message_voice(key)), t)) },
        None => None,
    }
}

/// The lines a pack message yields: one, or none.
pub open spec fn message_seq(content: &ContentPack, key: Seq<char>, replacements: Seq<(Seq<char>, Seq<char>)>) -> Seq<(NarrativeLineKind, Seq<char>)> {
    match message_line(content, key, replacements) {
        Some(l) => seq![l],
        None => Seq::empty(),
    }
}

/// Renders and pushes a pack message in its voice; a missing or blank
/// message pushes nothing.
pub fn push_message(lines: &mut NarrativeLines, content: &ContentPack, key: &str, replacements: &[(&str, &str)])
    requires
        content.wf(),
    ensures
        message_line(content, key@, pair_views(replacements@)) is None ==> final(lines).0@ == old(lines).0@,
        message_line(content, key@, pair_views(replacements@)) matches Some((kind, t)) ==> final(lines).0@.len() == old(lines).0@.len() + 1
            && final(lines).0@.drop_last() == old(lines).0@
            && final(lines).0@.last().kind == kind && final(lines).0@.last().text@ == t,
        final(lines).views() == old(lines).views() + message_seq(content, key@, pair_views(replacements@)),
{
    let text = match content.render_message(key, replacements) {
        Some(t) => t,
        None => {
            assert(old(lines).views() + Seq::<(NarrativeLineKind, Seq<char>)>::empty() =~= old(lines).views());
            return;
        },
    };
    if text_is_blank(text.as_str()) {
        assert(old(lines).views() + Seq::<(NarrativeLineKind, Seq<char>)>::empty() =~= old(lines).views());
        return;
    }
    let voice = content.message_voice(key);
    push_rendered_message(lines, content, text, voice);
    assert(lines.0@.drop_last() =~= old(lines).0@);
    assert(lines.views() =~= old(lines).views() + message_seq(content, key@, pair_views(replacements@)));
}

} // verus!

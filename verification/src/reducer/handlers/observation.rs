use vstd::prelude::*;
use crate::content::ContentPack;
use crate::narrative::{NarrativeLineKind, NarrativeLines};
use crate::reducer::observation::{feature_consumables_line, feature_of, find_feature, observation_lines, render_feature_consumables_line,
    render_room_observation, render_story_text, story_text, ObservationMode};
use crate::state::WorldState;
use crate::state::tracking::{notes_after, set_map_gained, feature_key};
use crate::text::pair_views;

verus! {

/// Tells of the room as the player observes it; a room the pack lacks is
/// reported as an error.
pub fn handle_current_room_observed(state: &mut WorldState, content: &ContentPack, room_id: &str, mode: ObservationMode,
    lines: &mut NarrativeLines)
    requires
        old(state).wf(),
        content.wf(),
    ensures
        *final(state) == *old(state),
        content.has_room(room_id@) ==> final(lines).views() == old(lines).views() + observation_lines(content, &*old(state), room_id@, mode),
        !content.has_room(room_id@) ==> final(lines).views()
            == old(lines).views().push((NarrativeLineKind::Error, content.presentation.error_text.room_missing@)),
{
    match render_room_observation(content, state, room_id, mode) {
        Some(observation) => {
            let ghost added = observation.views();
            lines.extend(observation.0);
            assert(lines.views() =~= old(lines).views() + added);
        },
        None => {
            let t = content.presentation.error_text.room_missing.clone();
            lines.error(t);
            assert(lines.views() =~= old(lines).views().push((NarrativeLineKind::Error, content.presentation.error_text.room_missing@)));
        },
    }
}

/// What looking at a feature tells: its description, then what it offers
/// that is at hand.
pub open spec fn feature_observed_lines(content: &ContentPack, state: &WorldState, room_id: Seq<char>, feature_id: Seq<char>)
    -> Seq<(NarrativeLineKind, Seq<char>)>
{
    match feature_of(content, room_id, feature_id) {
        Some(f) => seq![(NarrativeLineKind::Narration, f.inspect_text@)] + match feature_consumables_line(content, state, room_id, feature_id) {
            Some(t) => seq![(NarrativeLineKind::Narration, t)],
            None => Seq::empty(),
        },
        None => seq![(NarrativeLineKind::Narration, content.presentation.error_text.room_missing@)],
    }
}

pub fn handle_feature_observed(state: &mut WorldState, content: &ContentPack, room_id: &str, feature_id: &str, lines: &mut NarrativeLines)
    requires
        old(state).wf(),
    ensures
        *final(state) == *old(state),
        final(lines).views() == old(lines).views() + feature_observed_lines(content, &*old(state), room_id@, feature_id@),
{
    match find_feature(content, room_id, feature_id) {
        Some(feature) => {
            lines.narration(feature.inspect_text.clone());
            match render_feature_consumables_line(content, state, room_id, feature_id) {
                Some(line) => {
                    let ghost t = line@;
                    lines.narration(line);
                    assert(lines.views() =~= old(lines).views() + feature_observed_lines(content, &*old(state), room_id@, feature_id@));
                },
                None => {
                    assert(lines.views() =~= old(lines).views() + feature_observed_lines(content, &*old(state), room_id@, feature_id@));
                },
            }
        },
        None => {
            lines.narration(content.presentation.error_text.room_missing.clone());
            assert(lines.views() =~= old(lines).views() + feature_observed_lines(content, &*old(state), room_id@, feature_id@));
        },
    }
}

/// Tells what an actor looks like, its description rendered against the
/// world; an actor the pack lacks is reported.
pub fn handle_actor_observed(state: &mut WorldState, content: &ContentPack, actor_id: &str, lines: &mut NarrativeLines)
    requires
        old(state).wf(),
    ensures
        *final(state) == *old(state),
        final(lines).views() == old(lines).views().push((NarrativeLineKind::Narration,
            if content.has_actor(actor_id@) { story_text(content.spec_actor(actor_id@).inspect_text@, &*old(state)) }
            else { content.presentation.error_text.actor_unknown@ })),
{
    let text = match content.actor(actor_id) {
        Some(actor) => render_story_text(actor.inspect_text.as_str(), state),
        None => content.presentation.error_text.actor_unknown.clone(),
    };
    let ghost t = text@;
    lines.narration(text);
    assert(lines.views() =~= old(lines).views().push((NarrativeLineKind::Narration, t)));
}

/// The line shown when an actor in the player's room looks something over:
/// the pack's message, when it has one.
pub open spec fn witnessed_line(content: &ContentPack, state: &WorldState, room_id: Seq<char>, key: Seq<char>,
    args: Seq<(Seq<char>, Seq<char>)>) -> Seq<(NarrativeLineKind, Seq<char>)>
{
    if state.current_room_id@ == room_id {
        match content.spec_render_message(key, args) {
            Some(t) => seq![(NarrativeLineKind::Narration, t)],
            None => Seq::empty(),
        }
    } else {
        Seq::empty()
    }
}

fn push_witnessed(lines: &mut NarrativeLines, content: &ContentPack, state: &WorldState, room_id: &str, key: &str, args: &[(&str, &str)])
    requires
        content.wf(),
    ensures
        final(lines).views() == old(lines).views() + witnessed_line(content, state, room_id@, key@, pair_views(args@)),
{
    if crate::text::str_eq(state.current_room_id.as_str(), room_id) {
        match content.render_message(key, args) {
            Some(line) => {
                let ghost t = line@;
                lines.narration(line);
                assert(lines.views() =~= old(lines).views() + seq![(NarrativeLineKind::Narration, t)]);
                return;
            },
            None => {},
        }
    }
    assert(lines.views() =~= old(lines).views() + Seq::<(NarrativeLineKind, Seq<char>)>::empty());
}

/// An actor looks a room over: it remembers having done so and notes the
/// room's description; a player in that room sees it happen. A room the
/// pack lacks is reported.
pub fn handle_actor_observed_room(state: &mut WorldState, content: &ContentPack, actor_id: &str, actor_name: &str, room_id: &str,
    lines: &mut NarrativeLines)
    requires
        old(state).wf(),
        content.wf(),
    ensures
        final(state).wf(),
        content.has_room(room_id@) ==> {
            let room = content.spec_room(room_id@);
            &&& set_map_gained(old(state).actor_observed_room_ids@, final(state).actor_observed_room_ids@, actor_id@, room_id@)
            &&& final(state).actor_recent_observation_notes@ == old(state).actor_recent_observation_notes@.insert(actor_id@,
                final(state).actor_recent_observation_notes@[actor_id@])
            &&& final(state).actor_recent_observation_notes@[actor_id@]@ == notes_after(old(state).actor_recent_observation_notes@, actor_id@, room.inspect_text)
            &&& *final(state) == (WorldState {
                actor_observed_room_ids: final(state).actor_observed_room_ids,
                actor_recent_observation_notes: final(state).actor_recent_observation_notes,
                ..*old(state)
            })
            &&& final(lines).views() == old(lines).views() + witnessed_line(content, &*old(state), room_id@, "observation.actor_inspects_room"@,
                seq![("actor_name"@, actor_name@), ("room_title"@, room.title@)])
        },
        !content.has_room(room_id@) ==> *final(state) == *old(state)
            && final(lines).views() == old(lines).views().push((NarrativeLineKind::Narration, content.presentation.error_text.room_missing@)),
{
    match content.room(room_id) {
        Some(room) => {
            state.mark_actor_observed_room(actor_id, room_id);
            state.push_actor_observation_note(actor_id, room.inspect_text.clone());
            let args: Vec<(&str, &str)> = vec![("actor_name", actor_name), ("room_title", room.title.as_str())];
            assert(pair_views(args@) =~= seq![("actor_name"@, actor_name@), ("room_title"@, room.title@)]);
            push_witnessed(lines, content, state, room_id, "observation.actor_inspects_room", args.as_slice());
        },
        None => {
            let ghost t = content.presentation.error_text.room_missing@;
            lines.narration(content.presentation.error_text.room_missing.clone());
            assert(lines.views() =~= old(lines).views().push((NarrativeLineKind::Narration, t)));
        },
    }
}

/// An actor looks a feature over: it remembers the feature and notes its
/// description; a player in that room sees it happen. A feature the room
/// lacks is reported.
pub fn handle_actor_observed_feature(state: &mut WorldState, content: &ContentPack, actor_id: &str, actor_name: &str, room_id: &str,
    feature_id: &str, lines: &mut NarrativeLines)
    requires
        old(state).wf(),
        content.wf(),
    ensures
        final(state).wf(),
        feature_of(content, room_id@, feature_id@) matches Some(feature) ==> {
            &&& set_map_gained(old(state).actor_known_feature_ids@, final(state).actor_known_feature_ids@, actor_id@, feature_key(room_id@, feature_id@))
            &&& final(state).actor_recent_observation_notes@ == old(state).actor_recent_observation_notes@.insert(actor_id@,
                final(state).actor_recent_observation_notes@[actor_id@])
            &&& final(state).actor_recent_observation_notes@[actor_id@]@ == notes_after(old(state).actor_recent_observation_notes@, actor_id@, feature.inspect_text)
            &&& *final(state) == (WorldState {
                actor_known_feature_ids: final(state).actor_known_feature_ids,
                actor_recent_observation_notes: final(state).actor_recent_observation_notes,
                ..*old(state)
            })
            &&& final(lines).views() == old(lines).views() + witnessed_line(content, &*old(state), room_id@, "observation.actor_inspects_feature"@,
                seq![("actor_name"@, actor_name@), ("feature_label"@, feature.label@)])
        },
        feature_of(content, room_id@, feature_id@) is None ==> *final(state) == *old(state)
            && final(lines).views() == old(lines).views().push((NarrativeLineKind::Narration, content.presentation.error_text.room_missing@)),
{
    match find_feature(content, room_id, feature_id) {
        Some(feature) => {
            state.mark_actor_feature_seen(actor_id, room_id, feature_id);
            state.push_actor_observation_note(actor_id, feature.inspect_text.clone());
            let args: Vec<(&str, &str)> = vec![("actor_name", actor_name), ("feature_label", feature.label.as_str())];
            assert(pair_views(args@) =~= seq![("actor_name"@, actor_name@), ("feature_label"@, feature.label@)]);
            push_witnessed(lines, content, state, room_id, "observation.actor_inspects_feature", args.as_slice());
        },
        None => {
            let ghost t = content.presentation.error_text.room_missing@;
            lines.narration(content.presentation.error_text.room_missing.clone());
            assert(lines.views() =~= old(lines).views().push((NarrativeLineKind::Narration, t)));
        },
    }
}

/// Who studies whom, for an actor studying another.
pub struct ActorObservationContext<'a> {
    pub actor_id: &'a str,
    pub actor_name: &'a str,
    pub target_actor_id: &'a str,
    pub target_actor_name: &'a str,
}

/// An actor studies another: it remembers having done so and notes the
/// other's description; a player in that room sees it happen. An actor the
/// pack lacks is reported.
pub fn handle_actor_observed_actor(state: &mut WorldState, content: &ContentPack, room_id: &str, lines: &mut NarrativeLines,
    ctx: ActorObservationContext<'_>)
    requires
        old(state).wf(),
        content.wf(),
    ensures
        final(state).wf(),
        content.has_actor(ctx.target_actor_id@) ==> {
            let target = content.spec_actor(ctx.target_actor_id@);
            &&& set_map_gained(old(state).actor_known_actor_ids@, final(state).actor_known_actor_ids@, ctx.actor_id@, ctx.target_actor_id@)
            &&& final(state).actor_recent_observation_notes@ == old(state).actor_recent_observation_notes@.insert(ctx.actor_id@,
                final(state).actor_recent_observation_notes@[ctx.actor_id@])
            &&& final(state).actor_recent_observation_notes@[ctx.actor_id@]@ == notes_after(old(state).actor_recent_observation_notes@, ctx.actor_id@, target.inspect_text)
            &&& *final(state) == (WorldState {
                actor_known_actor_ids: final(state).actor_known_actor_ids,
                actor_recent_observation_notes: final(state).actor_recent_observation_notes,
                ..*old(state)
            })
            &&& final(lines).views() == old(lines).views() + witnessed_line(content, &*old(state), room_id@, "observation.actor_studies_actor"@,
                seq![("actor_name"@, ctx.actor_name@), ("target_actor_name"@, ctx.target_actor_name@)])
        },
        !content.has_actor(ctx.target_actor_id@) ==> *final(state) == *old(state)
            && final(lines).views() == old(lines).views().push((NarrativeLineKind::Narration, content.presentation.error_text.actor_unknown@)),
{
    match content.actor(ctx.target_actor_id) {
        Some(target) => {
            state.mark_actor_studied_actor(ctx.actor_id, ctx.target_actor_id);
            state.push_actor_observation_note(ctx.actor_id, target.inspect_text.clone());
            let args: Vec<(&str, &str)> = vec![("actor_name", ctx.actor_name), ("target_actor_name", ctx.target_actor_name)];
            assert(pair_views(args@) =~= seq![("actor_name"@, ctx.actor_name@), ("target_actor_name"@, ctx.target_actor_name@)]);
            push_witnessed(lines, content, state, room_id, "observation.actor_studies_actor", args.as_slice());
        },
        None => {
            let ghost t = content.presentation.error_text.actor_unknown@;
            lines.narration(content.presentation.error_text.actor_unknown.clone());
            assert(lines.views() =~= old(lines).views().push((NarrativeLineKind::Narration, t)));
        },
    }
}

} // verus!

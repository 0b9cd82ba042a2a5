use vstd::prelude::*;
use crate::content::ContentPack;
use crate::narrative::{line_views, NarrativeLineKind, NarrativeLines};
use crate::panels::exit_shows;
use crate::reducer::beat_advance::signal_headroom;
use crate::reducer::handlers::movement::{apply_view_turn, looked_lines, turn_started, walked_to};
use crate::reducer::handlers::party::{follow_feedback, opt_text};
use crate::reducer::summaries::join_with;
use crate::state::{TurnOutcome, WorldState};
use crate::state::appointments::display_actor_name;
use crate::text::{cat, chars_of, str_eq, string_from_chars, string_of};
use super::CinderRuntime;

verus! {

/// The texts of styled lines, in order.
pub open spec fn view_texts(v: Seq<(NarrativeLineKind, Seq<char>)>) -> Seq<Seq<char>> {
    v.map_values(|p: (NarrativeLineKind, Seq<char>)| p.1)
}

/// The text of a turn whose lines are `before` followed by `tail`, one
/// line per row.
pub open spec fn turn_text(before: Seq<(NarrativeLineKind, Seq<char>)>, tail: Seq<(NarrativeLineKind, Seq<char>)>) -> Seq<char> {
    join_with(view_texts(before + tail), "\n"@)
}

/// Whether an exit of the player's room that they can see leads to `room_id`.
pub open spec fn exit_open(content: &ContentPack, state: &WorldState, room_id: Seq<char>) -> bool {
    let here = content.spec_room(state.current_room_id@);
    &&& content.has_room(state.current_room_id@)
    &&& exists|i: int| 0 <= i < here.exits.len() && #[trigger] here.exits@[i].room_id@ == room_id && exit_shows(state, here.exits@[i])
}

/// Whether the player may look into `room_id` from where they stand: it is
/// their room, or an open exit leads there.
pub open spec fn view_reachable(content: &ContentPack, state: &WorldState, room_id: Seq<char>) -> bool {
    state.current_room_id@ == room_id || exit_open(content, state, room_id)
}

fn open_exit_to(content: &ContentPack, state: &WorldState, room_id: &str) -> (r: bool)
    requires
        state.wf(),
    ensures
        r == exit_open(content, state, room_id@),
{
    let here = match content.room(state.current_room_id.as_str()) {
        Some(room) => room,
        None => return false,
    };
    let mut i: usize = 0;
    while i < here.exits.len()
        invariant
            i <= here.exits.len(),
            state.wf(),
            content.has_room(state.current_room_id@),
            *here == content.spec_room(state.current_room_id@),
            forall|j: int| 0 <= j < i ==> !(#[trigger] here.exits@[j].room_id@ == room_id@ && exit_shows(state, here.exits@[j])),
        decreases here.exits.len() - i,
    {
        let exit = &here.exits[i];
        if str_eq(exit.room_id.as_str(), room_id) {
            let shows = exit.requires_story_var.as_str().unicode_len() == 0
                || crate::turn_policies::story_var_is_truthy(state, exit.requires_story_var.as_str());
            if shows {
                assert(here.exits@[i as int].room_id@ == room_id@ && exit_shows(state, here.exits@[i as int]));
                return true;
            }
        }
        i = i + 1;
    }
    false
}

proof fn lemma_texts_are_view_texts(lines: &NarrativeLines)
    ensures
        lines.texts() == view_texts(lines.views()),
{
    assert(lines.texts() =~= view_texts(lines.views()));
}

impl CinderRuntime {
    /// Looks into a room: the turn starts without time passing, the player
    /// walks there through an open exit when it is not their room, and the
    /// room is told while the game is active. A room the pack lacks, or one
    /// no open exit leads to, is refused with the world unchanged.
    pub fn switch_room_view(&mut self, room_id: &str) -> (r: Result<TurnOutcome, String>)
        requires
            old(self).wf(),
            old(self).spec_state().turn_number < u32::MAX,
            old(self).spec_state().current_room_id@ != room_id@
                ==> signal_headroom(&old(self).spec_state(), &old(self).spec_content(), 2),
        ensures
            final(self).wf(),
            final(self).spec_content() == old(self).spec_content(),
            final(self).cached_act_closure() == old(self).cached_act_closure(),
            final(self).cached_game_closure() == old(self).cached_game_closure(),
            ({
                let content = old(self).spec_content();
                let state = old(self).spec_state();
                let after = final(self).spec_state();
                if !content.has_room(room_id@) {
                    &&& r matches Err(m) && m@ == "missing room '"@ + room_id@ + "'"@
                    &&& after == state
                } else if !view_reachable(&content, &state, room_id@) {
                    &&& r matches Err(m) && m@ == "'"@ + room_id@ + "' is not an open exit of the current room"@
                    &&& after == state
                } else {
                    r matches Ok(out) && {
                        let tail = looked_lines(&content, &after, room_id@);
                        &&& out.text@ == join_with(view_texts(line_views(out.lines@)), "\n"@)
                        &&& line_views(out.lines@).len() >= tail.len()
                        &&& line_views(out.lines@).skip(line_views(out.lines@).len() - tail.len()) == tail
                        &&& after.turn_number == state.turn_number + 1
                        &&& after.current_time_minutes >= state.current_time_minutes
                        &&& after.current_room_id@ == room_id@
                        &&& out.phase == after.phase
                        &&& state.current_room_id@ == room_id@ ==> after == (WorldState { turn_number: after.turn_number, ..state })
                            && out.text@ == turn_text(Seq::empty(), tail)
                        // Walking over: the clock moves only by the minutes of
                        // the stages started on leaving and on entering.
                        &&& state.current_room_id@ != room_id@
                            ==> walked_to(&content, &turn_started(state, (state.turn_number + 1) as u32), &after, room_id@)
                        &&& exists|walked: Seq<(NarrativeLineKind, Seq<char>)>| #[trigger] turn_text(walked, tail) == out.text@
                    }
                }
            }),
    {
        if self.content.room(room_id).is_none() {
            let m = cat(cat("missing room '", room_id).as_str(), "'");
            return Err(m);
        }
        if !str_eq(self.state.current_room_id.as_str(), room_id) && !open_exit_to(&self.content, &self.state, room_id) {
            let m = cat(cat("'", room_id).as_str(), "' is not an open exit of the current room");
            return Err(m);
        }
        let turn_number = self.state.turn_number + 1;
        let reduced = apply_view_turn(&mut self.state, &self.content, turn_number, Some(room_id));
        let text = reduced.lines.to_text();
        let ghost out_views = reduced.lines.views();
        proof {
            lemma_texts_are_view_texts(&reduced.lines);
            let tail = looked_lines(&self.content, &self.state, room_id@);
            let v = reduced.lines.views();
            let walked = v.take(v.len() - tail.len());
            assert(walked + tail =~= v);
            assert(turn_text(walked, tail) == text@);
            if old(self).spec_state().current_room_id@ == room_id@ {
                assert(Seq::<(NarrativeLineKind, Seq<char>)>::empty() + tail =~= v);
            }
        }
        Ok(TurnOutcome { text, phase: reduced.phase, lines: reduced.lines.0 })
    }

    /// Starts following an actor, walking to and looking at the actor's room
    /// when it is not the player's, or stops following; the turn starts
    /// without time passing and its text opens with the transcript line.
    /// An actor the pack lacks is refused with the world unchanged.
    pub fn follow_actor(&mut self, actor_id: Option<&str>) -> (r: Result<TurnOutcome, String>)
        requires
            old(self).wf(),
            old(self).spec_state().turn_number < u32::MAX,
            actor_id is Some ==> signal_headroom(&old(self).spec_state(), &old(self).spec_content(), 2),
        ensures
            final(self).wf(),
            final(self).spec_content() == old(self).spec_content(),
            final(self).cached_act_closure() == old(self).cached_act_closure(),
            final(self).cached_game_closure() == old(self).cached_game_closure(),
            ({
                let content = old(self).spec_content();
                let state = old(self).spec_state();
                let after = final(self).spec_state();
                let told = seq![(NarrativeLineKind::Narration, "> "@ + follow_feedback(&content, &state, opt_text(actor_id)))];
                match actor_id {
                    Some(id) if !content.has_actor(id@) => {
                        &&& r matches Err(m) && m@ == "missing actor '"@ + id@ + "'"@
                        &&& after == state
                    },
                    Some(id) => r matches Ok(out) && {
                        let room = state.spec_actor_room_id(id@, content.spec_actor(id@).room_id@);
                        let tail = looked_lines(&content, &after, room);
                        &&& out.text@ == join_with(view_texts(line_views(out.lines@)), "\n"@)
                        &&& line_views(out.lines@).take(1) == told
                        &&& out.phase == after.phase
                        &&& after.turn_number == state.turn_number + 1
                        &&& after.current_time_minutes >= state.current_time_minutes
                        &&& after.followed_actor_id matches Some(f) && f@ == id@
                        &&& after.current_room_id@ == room
                        &&& state.current_room_id@ == room ==> out.text@ == turn_text(told, Seq::empty())
                            && after == (WorldState { turn_number: after.turn_number, followed_actor_id: after.followed_actor_id, ..state })
                        &&& state.current_room_id@ != room ==>
                            exists|walked: Seq<(NarrativeLineKind, Seq<char>)>| #[trigger] turn_text(told + walked, tail) == out.text@
                        &&& state.current_room_id@ != room ==> walked_to(&content,
                            &turn_started(WorldState { followed_actor_id: after.followed_actor_id, ..state }, (state.turn_number + 1) as u32),
                            &after, room)
                    },
                    None => r matches Ok(out) && {
                        &&& line_views(out.lines@) == told
                        &&& out.phase == after.phase
                        &&& after == (WorldState { turn_number: (state.turn_number + 1) as u32, followed_actor_id: None, ..state })
                        &&& out.text@ == turn_text(told, Seq::empty())
                    },
                }
            }),
    {
        let ghost state0 = self.state;
        let feedback = match actor_id {
            Some(id) => {
                let actor = match self.content.actor(id) {
                    Some(a) => a,
                    None => {
                        let m = cat(cat("missing actor '", id).as_str(), "'");
                        return Err(m);
                    },
                };
                let name = display_actor_name(&self.state, actor);
                let replaced = crate::text::replace_text(&chars_of(self.content.ui_text.follow_actor_transcript.as_str()),
                    &chars_of("{title}"), &chars_of(name.as_str()));
                string_from_chars(&replaced)
            },
            None => string_of(self.content.ui_text.follow_actor_stop_transcript.as_str()),
        };
        let feedback_line = cat("> ", feedback.as_str());
        let turn_number = self.state.turn_number + 1;
        let target: Option<String> = match actor_id {
            Some(id) => {
                let actor = self.content.actor(id).unwrap();
                self.state.followed_actor_id = Some(string_of(id));
                let room = string_of(self.state.actor_room_id(id, actor.room_id.as_str()));
                if str_eq(self.state.current_room_id.as_str(), room.as_str()) {
                    None
                } else {
                    Some(room)
                }
            },
            None => {
                self.state.followed_actor_id = None;
                None
            },
        };
        let ghost ready = self.state;
        let reduced = match &target {
            Some(room) => apply_view_turn(&mut self.state, &self.content, turn_number, Some(room.as_str())),
            None => apply_view_turn(&mut self.state, &self.content, turn_number, None),
        };
        let ghost told = seq![(NarrativeLineKind::Narration, feedback_line@)];
        let mut lines = NarrativeLines::new();
        lines.narration(feedback_line);
        let ghost reduced_views = reduced.lines.views();
        lines.extend(reduced.lines.0);
        let text = lines.to_text();
        let ghost out_views = lines.views();
        proof {
            lemma_texts_are_view_texts(&lines);
            assert(lines.views() =~= told + reduced_views);
            match target {
                Some(room) => {
                    let tail = looked_lines(&self.content, &self.state, room@);
                    let walked = reduced_views.take(reduced_views.len() - tail.len());
                    assert(told + walked + tail =~= lines.views());
                    assert(turn_text(told + walked, tail) == text@);
                },
                None => {
                    assert(told + Seq::<(NarrativeLineKind, Seq<char>)>::empty() =~= lines.views());
                },
            }
        }
        Ok(TurnOutcome { text, phase: reduced.phase, lines: lines.0 })
    }
}

} // verus!

use vstd::prelude::*;

pub mod views;
pub mod menus;
use crate::content::{ContentPack, ConditionValue, ItemStorageTarget, OpeningMovieDefinition};
use crate::reducer::beat_advance::{find_stage, has_stage, lemma_stage_def, stage_def};
use crate::reducer::observation::{render_story_text, story_text};
use crate::smap::StrMap;
use crate::stage_assignment::{chosen_ids, committed_vars, due_stage, fallback_views, request_for, score_views, split_lines, with_summary,
    StageAssignment, StageAssignmentRequest};
use crate::content::StageAssignmentDefinition;
use crate::reducer::summaries::join_with;
use crate::state::TurnOutcome;
use crate::text::cat;
use crate::closure::{assemble_closure, closure_card, copy_closure, opt_card, opt_review, opt_summary, opt_text, pair_views,
    preview_upto, relationship_pair_list, status_lines, ActClosure, CachedPerspectiveReview, FinalChapterSummary,
    RelationshipPair, SectionView};
use crate::panels::{follow_panel, interactable_panel, panel, panel_views, PanelOption};
use crate::content::PanelDataSource;
use crate::state::{GamePhase, WorldState};
use crate::state::appointments::{act_state_prepared, advance_to_next_act, current_act_intro, current_patient_name, display_actor_name,
    initialize_act_state, intro_text, needs_first_act, series_consistent, spec_act_intro, spec_display_actor_name, ActFeedbackSummary,
    ActSeriesState};
use crate::text::{chars_eq, chars_of, lemma_map_values_push, string_from_chars, string_of};
use crate::variable_store::VariableScope;

verus! {

/// A running game: the content pack and the world it drives.
pub struct CinderRuntime {
    content: ContentPack,
    state: WorldState,
    act_closure: Option<ActClosure>,
    game_closure: Option<ActClosure>,
}

/// An active stage as the objectives panel lists it.
pub struct ObjectiveSummary {
    pub stage_id: String,
    pub summary: String,
    pub message: String,
    pub quest_id: Option<String>,
    pub quest_title: Option<String>,
    pub quest_kind: Option<String>,
}

/// The text of an optional string.
pub open spec fn opt_view(t: Option<String>) -> Option<Seq<char>> {
    match t {
        Some(s) => Some(s@),
        None => None,
    }
}

/// An objective entry as text: stage id, summary, update message, quest id,
/// quest title and quest kind.
pub type ObjectiveView = (Seq<char>, Seq<char>, Seq<char>, Option<Seq<char>>, Option<Seq<char>>, Option<Seq<char>>);

pub open spec fn objective_view(o: ObjectiveSummary) -> ObjectiveView {
    (o.stage_id@, o.summary@, o.message@, opt_view(o.quest_id), opt_view(o.quest_title), opt_view(o.quest_kind))
}

/// The entries for the first `n` active stages: each known stage whose
/// rendered summary is not empty, in the order the stages are active.
pub open spec fn objective_entries(content: &ContentPack, state: &WorldState, n: int) -> Seq<ObjectiveView>
    decreases n,
{
    if n <= 0 {
        Seq::empty()
    } else {
        let prev = objective_entries(content, state, n - 1);
        let id = state.active_objective_stage_ids@[n - 1]@;
        let stages = content.beats.stages@;
        if has_stage(stages, id) && story_text(stage_def(stages, id).summary@, state).len() > 0 {
            let st = stage_def(stages, id);
            prev.push((st.id@, story_text(st.summary@, state), story_text(st.update_message@, state), opt_view(st.quest_id),
                match st.quest_title { Some(t) => Some(story_text(t@, state)), None => None }, opt_view(st.quest_kind)))
        } else {
            prev
        }
    }
}

/// The rendered summaries of the first `n` active stages that are known and
/// whose summary is not empty.
pub open spec fn stage_summaries(content: &ContentPack, state: &WorldState, n: int) -> Seq<Seq<char>>
    decreases n,
{
    if n <= 0 {
        Seq::empty()
    } else {
        let prev = stage_summaries(content, state, n - 1);
        let id = state.active_objective_stage_ids@[n - 1]@;
        let stages = content.beats.stages@;
        if has_stage(stages, id) && story_text(stage_def(stages, id).summary@, state).len() > 0 {
            prev.push(story_text(stage_def(stages, id).summary@, state))
        } else {
            prev
        }
    }
}

fn copy_text(t: &Option<String>) -> (r: Option<String>)
    ensures
        match (r, *t) {
            (Some(a), Some(b)) => a@ == b@,
            (None, None) => true,
            _ => false,
        },
{
    match t {
        Some(s) => Some(string_of(s.as_str())),
        None => None,
    }
}

/// A copy of the first film with the given id.
fn movie_with_id(content: &ContentPack, id: &str) -> (r: Option<OpeningMovieDefinition>)
    ensures
        ({
            let movies = content.movies@;
            &&& r is Some == exists|i: int| 0 <= i < movies.len() && (#[trigger] movies[i]).id@ == id@
            &&& r matches Some(m) ==> exists|i: int| 0 <= i < movies.len() && (#[trigger] movies[i]).id@ == id@
                && m.id@ == movies[i].id@ && m.match_value@ == movies[i].match_value@
                && forall|j: int| 0 <= j < i ==> movies[j].id@ != id@
        }),
{
    let target = chars_of(id);
    let mut i: usize = 0;
    while i < content.movies.len()
        invariant
            i <= content.movies.len(),
            target@ == id@,
            forall|j: int| 0 <= j < i ==> content.movies@[j].id@ != id@,
        decreases content.movies.len() - i,
    {
        let movie = &content.movies[i];
        if chars_eq(&chars_of(movie.id.as_str()), &target) {
            return Some(OpeningMovieDefinition {
                id: string_of(movie.id.as_str()),
                match_value: string_of(movie.match_value.as_str()),
            });
        }
        i = i + 1;
    }
    None
}

impl CinderRuntime {
    pub closed spec fn spec_content(&self) -> ContentPack {
        self.content
    }

    pub closed spec fn spec_state(&self) -> WorldState {
        self.state
    }

    /// The act's closing card, once it has been built.
    pub closed spec fn cached_act_closure(&self) -> Option<(Seq<char>, Option<Seq<char>>, Seq<SectionView>)> {
        opt_card(self.act_closure)
    }

    /// The game's closing card, once it has been built.
    pub closed spec fn cached_game_closure(&self) -> Option<(Seq<char>, Option<Seq<char>>, Seq<SectionView>)> {
        opt_card(self.game_closure)
    }

    pub open spec fn wf(&self) -> bool {
        self.spec_content().wf() && self.spec_state().wf()
    }

    /// A runtime over a world already under way, with its acts prepared.
    pub fn from_state(content: ContentPack, state: WorldState) -> (r: Self)
        requires
            content.wf(),
            state.wf(),
        ensures
            r.wf(),
            r.spec_content() == content,
            r.cached_act_closure() is None,
            r.cached_game_closure() is None,
            content.act_cast.len() == 0 ==> r.spec_state() == state,
            content.act_cast.len() > 0 ==> exists|s: ActSeriesState| #[trigger] act_state_prepared(&content, &state, s, &r.spec_state()),
    {
        let mut state = state;
        initialize_act_state(&content, &mut state);
        CinderRuntime { content, state, act_closure: None, game_closure: None }
    }

    /// A runtime over a fresh world for the pack, with its acts prepared.
    pub fn new(content: ContentPack) -> (r: Self)
        requires
            content.wf(),
        ensures
            r.wf(),
            r.spec_content() == content,
            r.cached_act_closure() is None,
            r.cached_game_closure() is None,
    {
        let state = WorldState::new(&content);
        Self::from_state(content, state)
    }

    /// Opens the next act once the current one has ended, taking the
    /// review of the act just closed; `None` when the pack has no cast or
    /// no act has ended.
    pub fn advance_act(&mut self, feedback: Option<&ActFeedbackSummary>) -> (r: Option<String>)
        requires
            old(self).wf(),
            old(self).spec_state().act_series matches Some(s) ==> needs_first_act(s) || (series_consistent(&old(self).spec_content(), s)
                && old(self).spec_content().opening.start_time_minutes + s.current_act_number * 1440 <= u32::MAX),
        ensures
            final(self).wf(),
            final(self).spec_content() == old(self).spec_content(),
            final(self).cached_act_closure() == old(self).cached_act_closure(),
            final(self).cached_game_closure() == old(self).cached_game_closure(),
            old(self).spec_content().act_cast.len() == 0 || old(self).spec_state().phase != GamePhase::ActEnded
                ==> r is None && final(self).spec_state() == old(self).spec_state(),
            old(self).spec_content().act_cast.len() > 0 && old(self).spec_state().phase == GamePhase::ActEnded
                && old(self).spec_state().act_series is Some ==> (r matches Some(t) && t@ == intro_text(&final(self).spec_content(), &final(self).spec_state())),
    {
        if self.content.act_cast.len() == 0 || self.state.phase != GamePhase::ActEnded {
            return None;
        }
        advance_to_next_act(&self.content, &mut self.state, feedback)
    }

    pub fn content(&self) -> (r: &ContentPack)
        ensures
            *r == self.spec_content(),
    {
        &self.content
    }

    pub fn state(&self) -> (r: &WorldState)
        ensures
            *r == self.spec_state(),
    {
        &self.state
    }

    /// The world, handed back.
    pub fn export_state(self) -> (r: WorldState)
        ensures
            r == self.spec_state(),
    {
        self.state
    }

    /// The same world under another content pack, with no closing card
    /// built yet.
    pub fn with_content(self, content: ContentPack) -> (r: Self)
        ensures
            r.spec_content() == content,
            r.spec_state() == self.spec_state(),
            r.cached_act_closure() is None,
            r.cached_game_closure() is None,
    {
        CinderRuntime { content, state: self.state, act_closure: None, game_closure: None }
    }

    /// The introduction for the current act, or the opening's.
    pub fn current_intro_text(&self) -> (r: String)
        requires
            self.wf(),
        ensures
            r@ == if self.spec_state().spec_current_patient() is Some
                && !(self.spec_state().spec_current_act_number() == 1 && self.spec_state().spec_current_patient()->0.act_count == 0) {
                spec_act_intro(self.spec_state().spec_current_act_number(), self.spec_state().spec_current_patient()->0)
            } else {
                self.spec_content().opening.intro_text@
            },
    {
        match current_act_intro(&self.state) {
            Some(t) => t,
            None => string_of(self.content.opening.intro_text.as_str()),
        }
    }

    /// How the pack names an actor in the current act; `None` for an actor
    /// the pack does not know.
    pub fn actor_display_name(&self, actor_id: &str) -> (r: Option<String>)
        requires
            self.wf(),
        ensures
            r is Some == self.spec_content().has_actor(actor_id@),
            r matches Some(n) ==> n@ == spec_display_actor_name(&self.spec_state(), &self.spec_content().spec_actor(actor_id@)),
    {
        match self.content.actor(actor_id) {
            Some(actor) => Some(display_actor_name(&self.state, actor)),
            None => None,
        }
    }

    /// The name of the current act's cast member, if an act series runs.
    pub fn current_cast_member_name(&self) -> (r: Option<String>)
        requires
            self.wf(),
        ensures
            r is Some == self.spec_state().spec_current_patient() is Some,
            r matches Some(n) ==> n@ == self.spec_state().spec_current_patient()->0.name@,
    {
        current_patient_name(&self.state)
    }

    pub fn current_time_label(&self) -> (r: String)
        ensures
            r@ == crate::state::clock::clock_text(self.spec_state().current_time_minutes as nat),
    {
        self.state.current_time_label()
    }

    pub fn current_day_number(&self) -> (r: u32)
        ensures
            r == self.spec_state().current_time_minutes / 1440 + 1,
    {
        self.state.current_day_number()
    }

    pub fn current_room_id(&self) -> (r: String)
        ensures
            r@ == self.spec_state().current_room_id@,
    {
        string_of(self.state.current_room_id.as_str())
    }

    pub fn followed_actor_id(&self) -> (r: Option<String>)
        ensures
            match (r, self.spec_state().followed_actor_id) {
                (Some(a), Some(b)) => a@ == b@,
                (None, None) => true,
                _ => false,
            },
    {
        copy_text(&self.state.followed_actor_id)
    }

    pub fn player_has_item(&self, item_id: &str) -> (r: bool)
        requires
            self.wf(),
        ensures
            r == (self.spec_state().spec_item_count(item_id@) > 0),
    {
        self.state.has_item(item_id)
    }

    /// Whether the item is held in the given storage, the room being the
    /// player's current one.
    pub fn has_item_in_storage(&self, item_id: &str, storage: ItemStorageTarget) -> (r: bool)
        requires
            self.wf(),
        ensures
            r == (self.spec_state().spec_item_count_in_storage(item_id@, storage, self.spec_state().current_room_id@) > 0),
    {
        self.state.has_item_in_storage(item_id, storage, self.state.current_room_id.as_str())
    }

    /// The player's inventory: each item with its count, in id order.
    pub fn inventory_items(&self) -> (r: Vec<(String, u32)>)
        requires
            self.wf(),
        ensures
            r@.map_values(|e: (String, u32)| (e.0@, e.1)) == self.spec_state().player_inventory.key_seq()
                .zip_with(self.spec_state().player_inventory.val_seq()),
    {
        let inv = &self.state.player_inventory;
        let n = inv.len();
        proof { inv.lemma_contents(); }
        let mut out: Vec<(String, u32)> = Vec::new();
        let mut i: usize = 0;
        while i < n
            invariant
                inv.wf(),
                n == inv.key_seq().len(),
                inv.key_seq().len() == inv.val_seq().len(),
                i <= n,
                out@.map_values(|e: (String, u32)| (e.0@, e.1)) == inv.key_seq().zip_with(inv.val_seq()).take(i as int),
            decreases n - i,
        {
            let ghost before = out@;
            let entry = (string_from_chars(inv.key_at(i)), *inv.value_at(i));
            out.push(entry);
            proof {
                lemma_map_values_push(before, entry, |e: (String, u32)| (e.0@, e.1));
                assert(out@.map_values(|e: (String, u32)| (e.0@, e.1)) =~= inv.key_seq().zip_with(inv.val_seq()).take(i + 1));
            }
            i = i + 1;
        }
        assert(inv.key_seq().zip_with(inv.val_seq()).take(n as int) =~= inv.key_seq().zip_with(inv.val_seq()));
        out
    }

    /// How many of an item lie in the player's current room.
    pub fn current_room_item_count(&self, item_id: &str) -> (r: u32)
        requires
            self.wf(),
        ensures
            r == self.spec_state().spec_item_count_in_storage(item_id@, ItemStorageTarget::CurrentRoom, self.spec_state().current_room_id@),
    {
        self.state.item_count_in_storage(item_id, ItemStorageTarget::CurrentRoom, self.state.current_room_id.as_str())
    }

    pub fn feature_consumable_count(&self, room_id: &str, feature_id: &str, consumable_id: &str) -> (r: u32)
        requires
            self.wf(),
        ensures
            r == crate::state::inventory::count_in(self.spec_state().feature_consumable_stock@,
                crate::state::inventory::consumable_key(room_id@, feature_id@, consumable_id@)),
    {
        self.state.remaining_consumable_stock(room_id, feature_id, consumable_id)
    }

    pub fn active_stage_ids(&self) -> (r: Vec<String>)
        ensures
            r@.map_values(|s: String| s@) == self.spec_state().active_objective_stage_ids@.map_values(|s: String| s@),
    {
        let ids = &self.state.active_objective_stage_ids;
        let mut out: Vec<String> = Vec::new();
        let mut i: usize = 0;
        while i < ids.len()
            invariant
                i <= ids.len(),
                out@.map_values(|s: String| s@) == ids@.take(i as int).map_values(|s: String| s@),
            decreases ids.len() - i,
        {
            let ghost before = out@;
            let s = string_of(ids[i].as_str());
            out.push(s);
            proof {
                lemma_map_values_push(before, s, |s: String| s@);
                assert(out@.map_values(|s: String| s@) =~= ids@.take(i + 1).map_values(|s: String| s@));
            }
            i = i + 1;
        }
        assert(ids@.take(ids.len() as int) =~= ids@);
        out
    }

    /// Every pair of actors whose connection is not zero, strongest first.
    pub fn relationship_pairs(&self) -> (r: Vec<RelationshipPair>)
        requires
            self.wf(),
        ensures
            pair_views(r@) == relationship_pair_list(&self.spec_content(), &self.spec_state()),
    {
        crate::closure::relationship_pairs(&self.content, &self.state)
    }

    /// A line per pair of actors whose pair stats have moved, the most
    /// changed first.
    pub fn relationship_status_lines(&self) -> (r: Vec<String>)
        requires
            self.wf(),
        ensures
            r@.map_values(|s: String| s@) == status_lines(&self.spec_content(), &self.spec_state()),
    {
        crate::closure::relationship_status_lines(&self.content, &self.state)
    }

    /// What the first active stage with a preview tells of the next chapter.
    pub fn current_next_chapter_preview(&self) -> (r: Option<String>)
        requires
            self.wf(),
        ensures
            opt_text(r) == preview_upto(&self.spec_content(), &self.spec_state(), self.spec_state().active_objective_stage_ids.len() as int),
    {
        crate::closure::current_next_chapter_preview(&self.content, &self.state)
    }

    /// The card that closes the act: the one already built if there is one;
    /// otherwise, once the act has ended, the pack's card built from the
    /// chapter summary and the perspective review that were made for it,
    /// and kept; `None` while the act goes on or when the card has nothing
    /// to show.
    pub fn act_closure(&mut self, summary: Option<&FinalChapterSummary>, review: Option<&CachedPerspectiveReview>) -> (r: Option<ActClosure>)
        requires
            old(self).wf(),
        ensures
            final(self).wf(),
            final(self).spec_content() == old(self).spec_content(),
            final(self).spec_state() == old(self).spec_state(),
            final(self).cached_game_closure() == old(self).cached_game_closure(),
            old(self).cached_act_closure() is Some ==> opt_card(r) == old(self).cached_act_closure()
                && final(self).cached_act_closure() == old(self).cached_act_closure(),
            old(self).cached_act_closure() is None && old(self).spec_state().phase != GamePhase::ActEnded
                ==> r is None && final(self).cached_act_closure() is None,
            old(self).cached_act_closure() is None && old(self).spec_state().phase == GamePhase::ActEnded ==> {
                &&& opt_card(r) == closure_card(&old(self).spec_content().ui_text.act_closure, opt_summary(summary), opt_review(review),
                    crate::state::appointments::current_patient_view(&old(self).spec_state()))
                &&& final(self).cached_act_closure() == opt_card(r)
            },
    {
        if let Some(c) = &self.act_closure {
            return Some(copy_closure(c));
        }
        if self.state.phase != GamePhase::ActEnded {
            return None;
        }
        let fallback = current_patient_name(&self.state);
        let built = assemble_closure(&self.content, &self.content.ui_text.act_closure, summary, review, fallback);
        match built {
            Some(c) => {
                let copy = copy_closure(&c);
                self.act_closure = Some(c);
                Some(copy)
            },
            None => None,
        }
    }

    /// The card that closes the game, built and kept as the act's card is,
    /// once the game has ended.
    pub fn game_closure(&mut self, summary: Option<&FinalChapterSummary>, review: Option<&CachedPerspectiveReview>) -> (r: Option<ActClosure>)
        requires
            old(self).wf(),
        ensures
            final(self).wf(),
            final(self).spec_content() == old(self).spec_content(),
            final(self).spec_state() == old(self).spec_state(),
            final(self).cached_act_closure() == old(self).cached_act_closure(),
            old(self).cached_game_closure() is Some ==> opt_card(r) == old(self).cached_game_closure()
                && final(self).cached_game_closure() == old(self).cached_game_closure(),
            old(self).cached_game_closure() is None && old(self).spec_state().phase != GamePhase::GameEnded
                ==> r is None && final(self).cached_game_closure() is None,
            old(self).cached_game_closure() is None && old(self).spec_state().phase == GamePhase::GameEnded ==> {
                &&& opt_card(r) == closure_card(&old(self).spec_content().ui_text.game_closure, opt_summary(summary), opt_review(review),
                    crate::state::appointments::current_patient_view(&old(self).spec_state()))
                &&& final(self).cached_game_closure() == opt_card(r)
            },
    {
        if let Some(c) = &self.game_closure {
            return Some(copy_closure(c));
        }
        if self.state.phase != GamePhase::GameEnded {
            return None;
        }
        let fallback = current_patient_name(&self.state);
        let built = assemble_closure(&self.content, &self.content.ui_text.game_closure, summary, review, fallback);
        match built {
            Some(c) => {
                let copy = copy_closure(&c);
                self.game_closure = Some(c);
                Some(copy)
            },
            None => None,
        }
    }

    /// The split of the cast due at the first active stage that has one.
    pub fn stage_assignment_request(&self) -> (r: Option<(StageAssignmentRequest, StageAssignmentDefinition)>)
        requires
            self.wf(),
        ensures
            r is Some == due_stage(&self.spec_content(), &self.spec_state(), self.spec_state().active_objective_stage_ids.len() as int) is Some,
            r matches Some((req, cfg)) ==> ({
                let stage = due_stage(&self.spec_content(), &self.spec_state(), self.spec_state().active_objective_stage_ids.len() as int)->0;
                &&& stage.stage_assignment == Some(cfg)
                &&& request_for(&self.spec_content(), &self.spec_state(), stage, cfg, &req)
            }),
    {
        crate::stage_assignment::stage_assignment_request(&self.content, &self.state)
    }

    /// Makes the split of the cast due at the first active stage that has
    /// one, with the scores given for its candidates (or the fallback ones
    /// when none were given), and adds its sentences to the turn's text.
    pub fn apply_stage_assignments(&mut self, outcome: TurnOutcome, scores: Option<&StageAssignment>) -> (r: TurnOutcome)
        requires
            old(self).wf(),
            scores is None ==> old(self).spec_content().actors.len() <= 100 + i32::MAX,
        ensures
            final(self).wf(),
            final(self).spec_content() == old(self).spec_content(),
            final(self).cached_act_closure() == old(self).cached_act_closure(),
            final(self).cached_game_closure() == old(self).cached_game_closure(),
            r.phase == outcome.phase,
            r.lines == outcome.lines,
            ({
                let content = old(self).spec_content();
                let state = old(self).spec_state();
                match due_stage(&content, &state, state.active_objective_stage_ids.len() as int) {
                    None => r.text@ == outcome.text@ && final(self).spec_state() == state,
                    Some(stage) => exists|req: StageAssignmentRequest, cfg: StageAssignmentDefinition| {
                        let scored = match scores { Some(s) => score_views(s.assignments@), None => fallback_views(&req) };
                        let chosen = chosen_ids(scored, &cfg);
                        &&& stage.stage_assignment == Some(cfg)
                        &&& #[trigger] request_for(&content, &state, stage, cfg, &req)
                        &&& final(self).spec_state().story_vars.vals() == committed_vars(&state, &req, chosen, &cfg)
                        &&& final(self).spec_state() == (WorldState { story_vars: final(self).spec_state().story_vars, ..state })
                        &&& r.text@ == with_summary(outcome.text@, join_with(split_lines(&content, &final(self).spec_state(), &req, chosen, &cfg), " "@))
                    },
                }
            }),
    {
        let pending = crate::stage_assignment::stage_assignment_request(&self.content, &self.state);
        let (request, config) = match pending {
            Some(p) => p,
            None => return outcome,
        };
        let ghost stage = due_stage(&self.content, &self.state, self.state.active_objective_stage_ids.len() as int)->0;
        let ghost before = self.state;
        proof {
            let cfg = config;
            crate::stage_assignment::lemma_candidates_len(&self.content, cfg,
                crate::stage_assignment::anchored_map(&before, cfg,
                    crate::stage_assignment::resolved_room(&before, cfg.selected_room_story_var@, cfg.selected_room_id@),
                    crate::stage_assignment::resolved_room(&before, cfg.remaining_room_story_var@, cfg.remaining_room_id@)),
                self.content.actors.len() as int);
        }
        proof {
            crate::stage_assignment::lemma_due_stage_is_due(&self.content, &before, before.active_objective_stage_ids.len() as int);
        }
        let fallback;
        let assignment: &StageAssignment = match scores {
            Some(s) => s,
            None => {
                fallback = crate::stage_assignment::fallback_stage_assignment(&request);
                proof { crate::stage_assignment::lemma_fallback_views(&request, &fallback); }
                &fallback
            },
        };
        let summary = crate::stage_assignment::commit_stage_assignment(&self.content, &mut self.state, &request, assignment, &config);
        let text = if summary.as_str().unicode_len() == 0 {
            outcome.text
        } else if outcome.text.as_str().unicode_len() == 0 {
            summary
        } else {
            cat(cat(outcome.text.as_str(), "\n\n").as_str(), summary.as_str())
        };
        proof {
            let scored = match scores { Some(s) => score_views(s.assignments@), None => fallback_views(&request) };
            assert(score_views(assignment.assignments@) == scored);
            assert(request_for(&self.content, &before, stage, config, &request));
            assert(stage.stage_assignment == Some(config));
            assert(text@ == with_summary(outcome.text@, summary@));
        }
        TurnOutcome { text, phase: outcome.phase, lines: outcome.lines }
    }

    /// Whether a command can be used in the current room now.
    pub fn action_is_available(&self, action: &crate::content::ActionDefinition) -> (r: bool)
        requires
            self.wf(),
            action.item_creation matches Some(c) ==> c.craftable_item_gates.wf(),
        ensures
            r == crate::turn_policies::spec_action_is_available(&self.spec_content(), &self.spec_state(), action,
                self.spec_state().current_room_id@),
    {
        crate::turn_policies::action_is_available(&self.content, &self.state, action, self.state.current_room_id.as_str())
    }

    /// The entries of a session panel, built from what the panel lists.
    pub fn panel_options(&self, data_source: &PanelDataSource) -> (r: Vec<PanelOption>)
        requires
            self.wf(),
        ensures
            panel_views(r@) == panel(&self.spec_content(), &self.spec_state(), *data_source),
    {
        crate::panels::panel_options(&self.content, &self.state, *data_source)
    }

    /// Everything in the current room that can be looked at.
    pub fn room_interactable_options(&self) -> (r: Vec<PanelOption>)
        requires
            self.wf(),
        ensures
            panel_views(r@) == interactable_panel(&self.spec_content(), &self.spec_state()),
    {
        crate::panels::room_interactable_options(&self.content, &self.state)
    }

    /// The choice of an actor to follow, or nobody.
    pub fn follow_actor_options(&self) -> (r: Vec<PanelOption>)
        requires
            self.wf(),
        ensures
            panel_views(r@) == follow_panel(&self.spec_content(), &self.spec_state()),
    {
        crate::panels::follow_actor_options(&self.content, &self.state)
    }

    pub fn set_transcript(&mut self, lines: Vec<String>)
        ensures
            final(self).spec_content() == old(self).spec_content(),
            final(self).cached_act_closure() == old(self).cached_act_closure(),
            final(self).cached_game_closure() == old(self).cached_game_closure(),
            final(self).spec_state() == (WorldState { transcript: lines, ..old(self).spec_state() }),
    {
        self.state.transcript = lines;
    }

    /// Records a transcript line as the last one, appending it unless it
    /// repeats the line before.
    pub fn push_transcript_line(&mut self, line: &str)
        ensures
            final(self).spec_content() == old(self).spec_content(),
            final(self).cached_act_closure() == old(self).cached_act_closure(),
            final(self).cached_game_closure() == old(self).cached_game_closure(),
            final(self).spec_state().last_transcript_line matches Some(l) && l@ == line@,
            ({
                let t = old(self).spec_state().transcript@;
                let repeats = t.len() > 0 && t.last()@ == line@;
                &&& final(self).spec_state().transcript@.len() == t.len() + if repeats { 0int } else { 1int }
                &&& final(self).spec_state().transcript@.take(t.len() as int) == t
                &&& !repeats ==> final(self).spec_state().transcript@.last()@ == line@
            }),
            final(self).spec_state() == (WorldState {
                transcript: final(self).spec_state().transcript,
                last_transcript_line: final(self).spec_state().last_transcript_line,
                ..old(self).spec_state()
            }),
    {
        self.state.last_transcript_line = Some(string_of(line));
        let n = self.state.transcript.len();
        let repeats = n > 0 && chars_eq(&chars_of(self.state.transcript[n - 1].as_str()), &chars_of(line));
        if !repeats {
            self.state.transcript.push(string_of(line));
        }
        assert(self.state.transcript@.take(n as int) =~= old(self).state.transcript@);
    }

    pub fn last_transcript_line(&self) -> (r: Option<String>)
        ensures
            match (r, self.spec_state().last_transcript_line) {
                (Some(a), Some(b)) => a@ == b@,
                (None, None) => true,
                _ => false,
            },
    {
        copy_text(&self.state.last_transcript_line)
    }

    /// Resumes play after an act has ended, clearing the act-scoped story
    /// variables; does nothing otherwise.
    pub fn continue_after_act(&mut self)
        requires
            old(self).wf(),
        ensures
            final(self).wf(),
            final(self).spec_content() == old(self).spec_content(),
            old(self).spec_state().phase != GamePhase::ActEnded ==> *final(self) == *old(self),
            old(self).spec_state().phase == GamePhase::ActEnded ==> {
                &&& final(self).cached_act_closure() is None
                &&& final(self).cached_game_closure() is None
                &&& final(self).spec_state().phase == GamePhase::Active
                &&& final(self).spec_state().story_vars.decls() == old(self).spec_state().story_vars.decls()
                &&& final(self).spec_state().story_vars.vals() == old(self).spec_state().story_vars.vals().remove_keys(
                    Set::new(|k: Seq<char>| old(self).spec_state().story_vars.decls().dom().contains(k)
                        && old(self).spec_state().story_vars.decls()[k].scope == VariableScope::Act))
                &&& final(self).spec_state() == (WorldState {
                    phase: GamePhase::Active,
                    story_vars: final(self).spec_state().story_vars,
                    ..old(self).spec_state()
                })
            },
    {
        if self.state.phase != GamePhase::ActEnded {
            return;
        }
        self.state.phase = GamePhase::Active;
        self.state.story_vars.clear_scoped(VariableScope::Act);
        self.act_closure = None;
        self.game_closure = None;
    }

    /// How many stages have been completed, out of how many the pack has.
    pub fn current_objective_progress(&self) -> (r: (usize, usize))
        ensures
            r == (self.spec_state().stages_completed, self.spec_content().beats.stages@.len() as usize),
    {
        (self.state.stages_completed, self.content.beats.stages.len())
    }

    /// Takes the film queued for the projector, if any, with its definition.
    pub fn consume_pending_projector_sequence(&mut self) -> (r: Option<OpeningMovieDefinition>)
        ensures
            final(self).spec_content() == old(self).spec_content(),
            final(self).cached_act_closure() == old(self).cached_act_closure(),
            final(self).cached_game_closure() == old(self).cached_game_closure(),
            final(self).spec_state() == (WorldState { pending_projector_sequence_id: None, ..old(self).spec_state() }),
            old(self).spec_state().pending_projector_sequence_id is None ==> r is None,
            old(self).spec_state().pending_projector_sequence_id matches Some(id) ==> {
                let movies = old(self).spec_content().movies@;
                &&& r is Some == exists|i: int| 0 <= i < movies.len() && (#[trigger] movies[i]).id@ == id@
                &&& r matches Some(m) ==> exists|i: int| 0 <= i < movies.len() && (#[trigger] movies[i]).id@ == id@
                    && m.id@ == movies[i].id@ && m.match_value@ == movies[i].match_value@
                    && forall|j: int| 0 <= j < i ==> movies[j].id@ != id@
            },
    {
        let id = match self.state.pending_projector_sequence_id.take() {
            Some(id) => id,
            None => return None,
        };
        movie_with_id(&self.content, id.as_str())
    }

    /// Takes the narration queued to accompany the projector.
    pub fn consume_pending_projector_narrative_lines(&mut self) -> (r: Vec<String>)
        ensures
            final(self).spec_content() == old(self).spec_content(),
            final(self).cached_act_closure() == old(self).cached_act_closure(),
            final(self).cached_game_closure() == old(self).cached_game_closure(),
            r == old(self).spec_state().pending_projector_narrative_lines,
            final(self).spec_state().pending_projector_narrative_lines@.len() == 0,
            final(self).spec_state() == (WorldState {
                pending_projector_narrative_lines: final(self).spec_state().pending_projector_narrative_lines,
                ..old(self).spec_state()
            }),
    {
        let mut empty: Vec<String> = Vec::new();
        std::mem::swap(&mut empty, &mut self.state.pending_projector_narrative_lines);
        empty
    }
}


impl CinderRuntime {
    /// The active stages as the objectives panel lists them.
    pub fn current_objective_summaries(&self) -> (r: Vec<ObjectiveSummary>)
        requires
            self.wf(),
        ensures
            r@.map_values(|o: ObjectiveSummary| objective_view(o)) == objective_entries(&self.spec_content(),
                &self.spec_state(), self.spec_state().active_objective_stage_ids@.len() as int),
    {
        let state = &self.state;
        let content = &self.content;
        let mut out: Vec<ObjectiveSummary> = Vec::new();
        let mut i: usize = 0;
        while i < state.active_objective_stage_ids.len()
            invariant
                state.wf(),
                state == &self.spec_state(),
                content == &self.spec_content(),
                i <= state.active_objective_stage_ids.len(),
                out@.map_values(|o: ObjectiveSummary| objective_view(o)) == objective_entries(content, state, i as int),
            decreases state.active_objective_stage_ids.len() - i,
        {
            let id = &state.active_objective_stage_ids[i];
            match find_stage(content.beats.stages.as_slice(), id.as_str()) {
                Some(k) => {
                    proof { lemma_stage_def(content.beats.stages@, id@, k as int); }
                    let stage = &content.beats.stages[k];
                    let summary = render_story_text(stage.summary.as_str(), state);
                    if chars_of(summary.as_str()).len() > 0 {
                        let message = render_story_text(stage.update_message.as_str(), state);
                        let quest_title = match &stage.quest_title {
                            Some(t) => Some(render_story_text(t.as_str(), state)),
                            None => None,
                        };
                        let entry = ObjectiveSummary {
                            stage_id: string_of(stage.id.as_str()),
                            summary,
                            message,
                            quest_id: copy_text(&stage.quest_id),
                            quest_title,
                            quest_kind: copy_text(&stage.quest_kind),
                        };
                        let ghost before = out@;
                        out.push(entry);
                        proof {
                            lemma_map_values_push(before, entry, |o: ObjectiveSummary| objective_view(o));
                            assert(opt_view(entry.quest_id) == opt_view(stage.quest_id));
                            assert(opt_view(entry.quest_kind) == opt_view(stage.quest_kind));
                        }
                    }
                },
                None => {},
            }
            i = i + 1;
        }
        out
    }

    /// The rendered summaries of the active stages, skipping empty ones.
    pub fn active_stage_summaries(&self) -> (r: Vec<String>)
        requires
            self.wf(),
        ensures
            r@.map_values(|s: String| s@) == stage_summaries(&self.spec_content(), &self.spec_state(),
                self.spec_state().active_objective_stage_ids@.len() as int),
    {
        let state = &self.state;
        let content = &self.content;
        let mut out: Vec<String> = Vec::new();
        let mut i: usize = 0;
        while i < state.active_objective_stage_ids.len()
            invariant
                state.wf(),
                state == &self.spec_state(),
                content == &self.spec_content(),
                i <= state.active_objective_stage_ids.len(),
                out@.map_values(|s: String| s@) == stage_summaries(content, state, i as int),
            decreases state.active_objective_stage_ids.len() - i,
        {
            let id = &state.active_objective_stage_ids[i];
            match find_stage(content.beats.stages.as_slice(), id.as_str()) {
                Some(k) => {
                    proof { lemma_stage_def(content.beats.stages@, id@, k as int); }
                    let summary = render_story_text(content.beats.stages[k].summary.as_str(), state);
                    if chars_of(summary.as_str()).len() > 0 {
                        let ghost before = out@;
                        out.push(summary);
                        proof { lemma_map_values_push(before, summary, |s: String| s@); }
                    }
                },
                None => {},
            }
            i = i + 1;
        }
        out
    }
}


/// Whether a stage is a secret: one of its candidate signals is a stat
/// threshold.
pub open spec fn is_secret_stage(stage: crate::content::BeatDefinition) -> bool {
    exists|j: int| 0 <= j < stage.advance_signals.len() && (#[trigger] stage.advance_signals@[j]).spec_signal() == "stat_threshold"@
}

/// Whether a stage is tied to the given cast actor: one of its candidates
/// requires the current cast actor to be that actor.
pub open spec fn is_tied_to_actor(stage: crate::content::BeatDefinition, actor_id: Seq<char>) -> bool {
    exists|j: int, c: int| 0 <= j < stage.advance_signals.len() && 0 <= c < stage.advance_signals@[j].spec_conditions().len()
        && #[trigger] condition_names_actor(stage.advance_signals@[j].spec_conditions()[c], actor_id)
}

pub open spec fn condition_names_actor(c: crate::content::AdvanceCondition, actor_id: Seq<char>) -> bool {
    &&& c.path@ == "story_vars.act_cast_actor_id"@
    &&& c.operator@ == "equal"@
    &&& c.value matches ConditionValue::Text(t) && t@ == actor_id
}

/// Whether a secret stage counts toward the current cast member: every one
/// does when no cast member is set.
pub open spec fn counts_as_secret(state: &WorldState, stage: crate::content::BeatDefinition) -> bool {
    is_secret_stage(stage) && match state.story_vars.vals().dom().contains("act_cast_actor_id"@) {
        false => true,
        true => is_tied_to_actor(stage, state.story_vars.vals()["act_cast_actor_id"@]),
    }
}

/// Among the first `n` stages: how many count as secrets, and how many of
/// those are no longer active (found).
pub open spec fn secret_counts(content: &ContentPack, state: &WorldState, n: int) -> (int, int)
    decreases n,
{
    if n <= 0 {
        (0, 0)
    } else {
        let prev = secret_counts(content, state, n - 1);
        let stage = content.beats.stages@[n - 1];
        if counts_as_secret(state, stage) {
            let active = state.active_objective_stage_ids@.map_values(|s: String| s@).contains(stage.id@);
            (prev.0 + if active { 0int } else { 1int }, prev.1 + 1)
        } else {
            prev
        }
    }
}

fn stage_is_secret(stage: &crate::content::BeatDefinition) -> (r: bool)
    ensures
        r == is_secret_stage(*stage),
{
    let target = chars_of("stat_threshold");
    let mut j: usize = 0;
    while j < stage.advance_signals.len()
        invariant
            j <= stage.advance_signals.len(),
            target@ == "stat_threshold"@,
            forall|q: int| 0 <= q < j ==> stage.advance_signals@[q].spec_signal() != "stat_threshold"@,
        decreases stage.advance_signals.len() - j,
    {
        if chars_eq(&chars_of(stage.advance_signals[j].signal()), &target) {
            return true;
        }
        j = j + 1;
    }
    false
}

fn condition_is_for_actor(c: &crate::content::AdvanceCondition, actor_id: &str) -> (r: bool)
    ensures
        r == condition_names_actor(*c, actor_id@),
{
    chars_eq(&chars_of(c.path.as_str()), &chars_of("story_vars.act_cast_actor_id"))
        && chars_eq(&chars_of(c.operator.as_str()), &chars_of("equal"))
        && match &c.value {
            ConditionValue::Text(t) => chars_eq(&chars_of(t.as_str()), &chars_of(actor_id)),
            _ => false,
        }
}

fn stage_is_tied_to(stage: &crate::content::BeatDefinition, actor_id: &str) -> (r: bool)
    ensures
        r == is_tied_to_actor(*stage, actor_id@),
{
    let mut j: usize = 0;
    while j < stage.advance_signals.len()
        invariant
            j <= stage.advance_signals.len(),
            forall|q: int, c: int| 0 <= q < j && 0 <= c < stage.advance_signals@[q].spec_conditions().len()
                ==> !#[trigger] condition_names_actor(stage.advance_signals@[q].spec_conditions()[c], actor_id@),
        decreases stage.advance_signals.len() - j,
    {
        let conds = stage.advance_signals[j].conditions();
        let mut c: usize = 0;
        while c < conds.len()
            invariant
                j < stage.advance_signals.len(),
                c <= conds.len(),
                conds@ == stage.advance_signals@[j as int].spec_conditions(),
                forall|q: int| 0 <= q < c ==> !#[trigger] condition_names_actor(conds@[q], actor_id@),
            decreases conds.len() - c,
        {
            if condition_is_for_actor(&conds[c], actor_id) {
                assert(condition_names_actor(stage.advance_signals@[j as int].spec_conditions()[c as int], actor_id@));
                return true;
            }
            c = c + 1;
        }
        j = j + 1;
    }
    false
}

impl CinderRuntime {
    /// How many of the current cast member's secret stages have been found,
    /// out of how many there are.
    pub fn current_secret_progress(&self) -> (r: (usize, usize))
        requires
            self.wf(),
        ensures
            r.0 as int == secret_counts(&self.spec_content(), &self.spec_state(), self.spec_content().beats.stages@.len() as int).0,
            r.1 as int == secret_counts(&self.spec_content(), &self.spec_state(), self.spec_content().beats.stages@.len() as int).1,
    {
        let state = &self.state;
        let content = &self.content;
        let current_actor_id = state.story_vars.get("act_cast_actor_id");
        let mut found: usize = 0;
        let mut total: usize = 0;
        let mut i: usize = 0;
        while i < content.beats.stages.len()
            invariant
                state.wf(),
                state == &self.spec_state(),
                content == &self.spec_content(),
                i <= content.beats.stages.len(),
                current_actor_id is Some == state.story_vars.vals().dom().contains("act_cast_actor_id"@),
                current_actor_id matches Some(a) ==> a@ == state.story_vars.vals()["act_cast_actor_id"@],
                found as int == secret_counts(content, state, i as int).0,
                total as int == secret_counts(content, state, i as int).1,
                found <= i,
                total <= i,
            decreases content.beats.stages.len() - i,
        {
            let stage = &content.beats.stages[i];
            let counts = stage_is_secret(stage) && match current_actor_id {
                None => true,
                Some(actor_id) => stage_is_tied_to(stage, actor_id),
            };
            if counts {
                if !crate::reducer::beat_advance::list_contains(&state.active_objective_stage_ids, stage.id.as_str()) {
                    found = found + 1;
                }
                total = total + 1;
            }
            i = i + 1;
        }
        (found, total)
    }
}

} // verus!

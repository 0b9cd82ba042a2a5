use vstd::prelude::*;
use crate::content::{ActionAvailability, ActionDefinition, ActionItemStorageTarget, ActorDefinition, BeatObjectiveDefinition,
    BeatObjectiveProgressRef, CommandEffect, ContentPack, ItemCreation, ItemStorageTarget, PanelDataSource};
use crate::panels::{is_equipped, item_is_worn};
use crate::reducer::observation::loose_view;
use crate::state::ActorStance;
use crate::reducer::beat_advance::list_contains;
use crate::reducer::observation::join_texts;
use crate::reducer::summaries::join_with;
use crate::state::WorldState;
use crate::text::{ascii_lowercase, cat, chars_eq, chars_of, is_blank, lower_char, pair_views, str_eq, string_from_chars, string_of,
    text_is_blank, trim, trim_chars};

verus! {

/// Whether a story variable's text reads as false: empty, `false` or `0`,
/// ignoring surrounding white space and ASCII case.
pub open spec fn is_falsy_text(v: Seq<char>) -> bool {
    let t = ascii_lowercase(trim(v));
    t.len() == 0 || t == "false"@ || t == "0"@
}

/// Whether a story variable is set to something other than a false reading.
pub open spec fn spec_story_var_is_truthy(state: &WorldState, key: Seq<char>) -> bool {
    state.story_vars.vals().dom().contains(key) && !is_falsy_text(state.story_vars.vals()[key])
}

fn lowercase_chars(s: &Vec<char>) -> (r: Vec<char>)
    ensures
        r@ == ascii_lowercase(s@),
{
    let mut r: Vec<char> = Vec::new();
    let mut i: usize = 0;
    while i < s.len()
        invariant
            i <= s.len(),
            r@ == ascii_lowercase(s@.take(i as int)),
        decreases s.len() - i,
    {
        r.push(lower_char(s[i]));
        i = i + 1;
        assert(r@ =~= ascii_lowercase(s@.take(i as int)));
    }
    assert(s@.take(s.len() as int) =~= s@);
    r
}

pub fn story_var_is_truthy(state: &WorldState, key: &str) -> (r: bool)
    requires
        state.wf(),
    ensures
        r == spec_story_var_is_truthy(state, key@),
{
    match state.story_vars.get(key) {
        Some(value) => {
            let t = lowercase_chars(&trim_chars(value));
            !(t.len() == 0 || chars_eq(&t, &chars_of("false")) || chars_eq(&t, &chars_of("0")))
        },
        None => false,
    }
}

// ------------------------------------------------------------ objectives

/// The story variable that records a step of an objective's progress.
pub open spec fn progress_key(objective_id: Seq<char>, key: Seq<char>) -> Seq<char> {
    "beat_objective:progress:"@ + objective_id + ":"@ + key
}

/// The story variable that records an actor's part in an objective as done.
pub open spec fn actor_complete_key(objective_id: Seq<char>, actor_id: Seq<char>) -> Seq<char> {
    "beat_objective:actor_complete:"@ + objective_id + ":"@ + actor_id
}

pub fn objective_progress_story_var_key(objective_id: &str, key: &str) -> (r: String)
    ensures
        r@ == progress_key(objective_id@, key@),
{
    cat(cat(cat("beat_objective:progress:", objective_id).as_str(), ":").as_str(), key)
}

pub fn objective_actor_complete_key(objective_id: &str, actor_id: &str) -> (r: String)
    ensures
        r@ == actor_complete_key(objective_id@, actor_id@),
{
    cat(cat(cat("beat_objective:actor_complete:", objective_id).as_str(), ":").as_str(), actor_id)
}

pub open spec fn var_is_true(state: &WorldState, key: Seq<char>) -> bool {
    state.story_vars.vals().dom().contains(key) && state.story_vars.vals()[key] == "true"@
}

fn var_is_true_exec(state: &WorldState, key: &str) -> (r: bool)
    requires
        state.wf(),
    ensures
        r == var_is_true(state, key@),
{
    match state.story_vars.get(key) {
        Some(v) => str_eq(v, "true"),
        None => false,
    }
}

/// Whether the pack has an objective with the given id.
pub open spec fn objective_known(content: &ContentPack, objective_id: Seq<char>) -> bool {
    exists|i: int| 0 <= i < content.beat_objectives.objectives.len() && (#[trigger] content.beat_objectives.objectives@[i]).id@ == objective_id
}

/// Whether a step of an objective's progress has been made: the objective
/// is known and the step is recorded as done.
pub open spec fn progress_met(content: &ContentPack, state: &WorldState, progress: BeatObjectiveProgressRef) -> bool {
    objective_known(content, progress.objective_id@) && var_is_true(state, progress_key(progress.objective_id@, progress.key@))
}

pub fn objective_progress_is_met(content: &ContentPack, state: &WorldState, progress: &BeatObjectiveProgressRef) -> (r: bool)
    requires
        state.wf(),
    ensures
        r == progress_met(content, state, *progress),
{
    let objectives = &content.beat_objectives.objectives;
    let mut known = false;
    let mut i: usize = 0;
    while i < objectives.len()
        invariant
            objectives == &content.beat_objectives.objectives,
            i <= objectives.len(),
            known == exists|j: int| 0 <= j < i && (#[trigger] objectives@[j]).id@ == progress.objective_id@,
        decreases objectives.len() - i,
    {
        if str_eq(objectives[i].id.as_str(), progress.objective_id.as_str()) {
            known = true;
        }
        i = i + 1;
    }
    known && var_is_true_exec(state, objective_progress_story_var_key(progress.objective_id.as_str(), progress.key.as_str()).as_str())
}

/// The index of the first of the first `n` objectives with the given id, or -1.
pub open spec fn first_objective(objectives: Seq<BeatObjectiveDefinition>, id: Seq<char>, n: int) -> int
    decreases n,
{
    if n <= 0 { -1 } else {
        let prev = first_objective(objectives, id, n - 1);
        if prev >= 0 { prev } else if objectives[n - 1].id@ == id { n - 1 } else { -1 }
    }
}

/// The index of the first of the first `n` progress keys with the given key, or -1.
pub open spec fn first_key(keys: Seq<crate::content::BeatObjectiveProgressKey>, key: Seq<char>, n: int) -> int
    decreases n,
{
    if n <= 0 { -1 } else {
        let prev = first_key(keys, key, n - 1);
        if prev >= 0 { prev } else if keys[n - 1].key@ == key { n - 1 } else { -1 }
    }
}

/// How a step of progress is named: its label in the objective that
/// declares it (its key when the label is blank), or the bare key.
pub open spec fn progress_label(content: &ContentPack, progress: BeatObjectiveProgressRef) -> Seq<char> {
    let objectives = content.beat_objectives.objectives@;
    let o = first_objective(objectives, progress.objective_id@, objectives.len() as int);
    if o < 0 {
        progress.key@
    } else {
        let keys = objectives[o].progress.keys@;
        let k = first_key(keys, progress.key@, keys.len() as int);
        if k < 0 { progress.key@ } else if is_blank(keys[k].label@) { keys[k].key@ } else { keys[k].label@ }
    }
}

proof fn lemma_first_objective_stays(objectives: Seq<BeatObjectiveDefinition>, id: Seq<char>, a: int, b: int)
    requires
        0 <= a <= b,
        first_objective(objectives, id, a) >= 0,
    ensures
        first_objective(objectives, id, b) == first_objective(objectives, id, a),
    decreases b - a,
{
    if a < b { lemma_first_objective_stays(objectives, id, a, b - 1); }
}

proof fn lemma_first_key_stays(keys: Seq<crate::content::BeatObjectiveProgressKey>, key: Seq<char>, a: int, b: int)
    requires
        0 <= a <= b,
        first_key(keys, key, a) >= 0,
    ensures
        first_key(keys, key, b) == first_key(keys, key, a),
    decreases b - a,
{
    if a < b { lemma_first_key_stays(keys, key, a, b - 1); }
}

pub fn objective_progress_label(content: &ContentPack, progress: &BeatObjectiveProgressRef) -> (r: String)
    ensures
        r@ == progress_label(content, *progress),
{
    let objectives = &content.beat_objectives.objectives;
    let mut i: usize = 0;
    while i < objectives.len()
        invariant
            objectives == &content.beat_objectives.objectives,
            i <= objectives.len(),
            first_objective(objectives@, progress.objective_id@, i as int) == -1,
        decreases objectives.len() - i,
    {
        if str_eq(objectives[i].id.as_str(), progress.objective_id.as_str()) {
            assert(first_objective(objectives@, progress.objective_id@, i as int + 1) == i);
            proof { lemma_first_objective_stays(objectives@, progress.objective_id@, i as int + 1, objectives.len() as int); }
            let keys = &objectives[i].progress.keys;
            let mut k: usize = 0;
            while k < keys.len()
                invariant
                    objectives == &content.beat_objectives.objectives,
                    i < objectives.len(),
                    first_objective(objectives@, progress.objective_id@, objectives.len() as int) == i,
                    keys == &objectives@[i as int].progress.keys,
                    k <= keys.len(),
                    first_key(keys@, progress.key@, k as int) == -1,
                decreases keys.len() - k,
            {
                if str_eq(keys[k].key.as_str(), progress.key.as_str()) {
                    assert(first_key(keys@, progress.key@, k as int + 1) == k);
                    proof { lemma_first_key_stays(keys@, progress.key@, k as int + 1, keys.len() as int); }
                    return if text_is_blank(keys[k].label.as_str()) { keys[k].key.clone() } else { keys[k].label.clone() };
                }
                k = k + 1;
            }
            return progress.key.clone();
        }
        i = i + 1;
    }
    progress.key.clone()
}

/// The labels of the first `n` steps that are made (`met`) or not.
pub open spec fn labels_where(content: &ContentPack, state: &WorldState, refs: Seq<BeatObjectiveProgressRef>, met: bool, n: int) -> Seq<Seq<char>>
    decreases n,
{
    if n <= 0 {
        Seq::empty()
    } else {
        let prev = labels_where(content, state, refs, met, n - 1);
        if progress_met(content, state, refs[n - 1]) == met { prev.push(progress_label(content, refs[n - 1])) } else { prev }
    }
}

fn progress_labels_where(content: &ContentPack, state: &WorldState, refs: &Vec<BeatObjectiveProgressRef>, met: bool) -> (r: Vec<String>)
    requires
        state.wf(),
    ensures
        r@.map_values(|s: String| s@) == labels_where(content, state, refs@, met, refs.len() as int),
{
    let mut out: Vec<String> = Vec::new();
    let mut i: usize = 0;
    while i < refs.len()
        invariant
            state.wf(),
            i <= refs.len(),
            out@.map_values(|s: String| s@) == labels_where(content, state, refs@, met, i as int),
        decreases refs.len() - i,
    {
        if objective_progress_is_met(content, state, &refs[i]) == met {
            let ghost before = out@;
            let label = objective_progress_label(content, &refs[i]);
            out.push(label);
            assert(out@.map_values(|s: String| s@) =~= before.map_values(|s: String| s@).push(progress_label(content, refs@[i as int])));
        }
        i = i + 1;
    }
    out
}

// ---------------------------------------------------------- availability

/// Why a command cannot be used now.
pub enum CommandAvailabilityIssue {
    StageInactive,
    MissingObjectiveProgress(Vec<String>),
    BlockedByObjectiveProgress(Vec<String>),
    /// A room-item condition is unmet: `required` or `forbidden`.
    RoomItemCondition(String),
}

pub enum IssueView {
    StageInactive,
    MissingObjectiveProgress(Seq<Seq<char>>),
    BlockedByObjectiveProgress(Seq<Seq<char>>),
    RoomItemCondition(Seq<char>),
}

pub open spec fn issue_view(i: CommandAvailabilityIssue) -> IssueView {
    match i {
        CommandAvailabilityIssue::StageInactive => IssueView::StageInactive,
        CommandAvailabilityIssue::MissingObjectiveProgress(l) => IssueView::MissingObjectiveProgress(l@.map_values(|s: String| s@)),
        CommandAvailabilityIssue::BlockedByObjectiveProgress(l) => IssueView::BlockedByObjectiveProgress(l@.map_values(|s: String| s@)),
        CommandAvailabilityIssue::RoomItemCondition(c) => IssueView::RoomItemCondition(c@),
    }
}

pub open spec fn texts_of(v: Seq<String>) -> Seq<Seq<char>> {
    v.map_values(|s: String| s@)
}

/// Whether one of the stages a command is limited to is active (or it is
/// not limited).
pub open spec fn during_active_stage(state: &WorldState, during: Seq<String>) -> bool {
    during.len() == 0 || exists|i: int| 0 <= i < during.len() && texts_of(state.active_objective_stage_ids@).contains(#[trigger] during[i]@)
}

fn stage_is_active_for(state: &WorldState, during: &Vec<String>) -> (r: bool)
    ensures
        r == during_active_stage(state, during@),
{
    if during.len() == 0 {
        return true;
    }
    let mut i: usize = 0;
    while i < during.len()
        invariant
            i <= during.len(),
            forall|j: int| 0 <= j < i ==> !texts_of(state.active_objective_stage_ids@).contains(#[trigger] during@[j]@),
        decreases during.len() - i,
    {
        if list_contains(&state.active_objective_stage_ids, during[i].as_str()) {
            return true;
        }
        i = i + 1;
    }
    false
}

pub open spec fn room_has(state: &WorldState, item_id: Seq<char>, room_id: Seq<char>) -> bool {
    state.spec_item_count_in_storage(item_id, ItemStorageTarget::CurrentRoom, room_id) > 0
}

/// Why a command cannot be used now, if it cannot: a stage it is limited
/// to is not active; a step it needs is not made (naming all such); a step
/// that blocks it is made (naming all such); the room lacks an item it
/// needs or holds one it must not; a story variable it needs is not set.
pub open spec fn availability_issue(content: &ContentPack, state: &WorldState, action: &ActionDefinition) -> Option<IssueView> {
    let a = action.available;
    let here = state.current_room_id@;
    let missing = labels_where(content, state, a.required_objective_progress@, false, a.required_objective_progress.len() as int);
    let blocked = labels_where(content, state, a.blocked_by_objective_progress@, true, a.blocked_by_objective_progress.len() as int);
    if !during_active_stage(state, a.available_during@) {
        Some(IssueView::StageInactive)
    } else if missing.len() > 0 {
        Some(IssueView::MissingObjectiveProgress(missing))
    } else if blocked.len() > 0 {
        Some(IssueView::BlockedByObjectiveProgress(blocked))
    } else if a.requires_room_item@.len() > 0 && !room_has(state, a.requires_room_item@, here) {
        Some(IssueView::RoomItemCondition("required"@))
    } else if a.requires_room_without_item@.len() > 0 && room_has(state, a.requires_room_without_item@, here) {
        Some(IssueView::RoomItemCondition("forbidden"@))
    } else if a.requires_story_var@.len() > 0 && !spec_story_var_is_truthy(state, a.requires_story_var@) {
        Some(IssueView::StageInactive)
    } else {
        None
    }
}

pub fn command_availability_issue(content: &ContentPack, state: &WorldState, action: &ActionDefinition) -> (r: Option<CommandAvailabilityIssue>)
    requires
        state.wf(),
    ensures
        match r {
            Some(i) => availability_issue(content, state, action) == Some(issue_view(i)),
            None => availability_issue(content, state, action) is None,
        },
{
    let a = &action.available;
    let here = state.current_room_id.as_str();
    if !stage_is_active_for(state, &a.available_during) {
        return Some(CommandAvailabilityIssue::StageInactive);
    }
    let missing = progress_labels_where(content, state, &a.required_objective_progress, false);
    if missing.len() > 0 {
        return Some(CommandAvailabilityIssue::MissingObjectiveProgress(missing));
    }
    let blocked = progress_labels_where(content, state, &a.blocked_by_objective_progress, true);
    if blocked.len() > 0 {
        return Some(CommandAvailabilityIssue::BlockedByObjectiveProgress(blocked));
    }
    if !a.requires_room_item.as_str().is_empty()
        && !state.has_item_in_storage(a.requires_room_item.as_str(), ItemStorageTarget::CurrentRoom, here) {
        return Some(CommandAvailabilityIssue::RoomItemCondition(string_of("required")));
    }
    if !a.requires_room_without_item.as_str().is_empty()
        && state.has_item_in_storage(a.requires_room_without_item.as_str(), ItemStorageTarget::CurrentRoom, here) {
        return Some(CommandAvailabilityIssue::RoomItemCondition(string_of("forbidden")));
    }
    if !a.requires_story_var.as_str().is_empty() && !story_var_is_truthy(state, a.requires_story_var.as_str()) {
        return Some(CommandAvailabilityIssue::StageInactive);
    }
    None
}

/// The message that tells why a command cannot be used, from the pack's
/// wording; empty when the pack has none.
pub open spec fn unavailable_message(content: &ContentPack, action: &ActionDefinition, issue: IssueView) -> Seq<char> {
    let verb = ascii_lowercase(action.command@);
    let rendered = match issue {
        IssueView::StageInactive => content.spec_render_message("error.command_not_now"@, seq![("verb"@, verb)]),
        IssueView::MissingObjectiveProgress(labels) => content.spec_render_message("error.command_needs_more"@,
            seq![("verb"@, verb), ("labels"@, join_with(labels, ", "@))]),
        IssueView::BlockedByObjectiveProgress(labels) => content.spec_render_message("error.command_blocked_by_progress"@,
            seq![("verb"@, verb), ("labels"@, join_with(labels, ", "@))]),
        IssueView::RoomItemCondition(_) => content.spec_render_message("error.command_not_now"@, seq![("verb"@, verb)]),
    };
    match rendered {
        Some(t) => t,
        None => Seq::empty(),
    }
}

pub fn command_unavailable_message(content: &ContentPack, action: &ActionDefinition, issue: &CommandAvailabilityIssue) -> (r: String)
    requires
        content.wf(),
    ensures
        r@ == unavailable_message(content, action, issue_view(*issue)),
{
    let verb = string_from_chars(&lowercase_chars(&chars_of(action.command.as_str())));
    let rendered = match issue {
        CommandAvailabilityIssue::StageInactive | CommandAvailabilityIssue::RoomItemCondition(_) => {
            let args: Vec<(&str, &str)> = vec![("verb", verb.as_str())];
            assert(pair_views(args@) =~= seq![("verb"@, verb@)]);
            content.render_message("error.command_not_now", args.as_slice())
        },
        CommandAvailabilityIssue::MissingObjectiveProgress(labels) => {
            let text = join_texts(labels, ", ");
            let args: Vec<(&str, &str)> = vec![("verb", verb.as_str()), ("labels", text.as_str())];
            assert(pair_views(args@) =~= seq![("verb"@, verb@), ("labels"@, text@)]);
            content.render_message("error.command_needs_more", args.as_slice())
        },
        CommandAvailabilityIssue::BlockedByObjectiveProgress(labels) => {
            let text = join_texts(labels, ", ");
            let args: Vec<(&str, &str)> = vec![("verb", verb.as_str()), ("labels", text.as_str())];
            assert(pair_views(args@) =~= seq![("verb"@, verb@), ("labels"@, text@)]);
            content.render_message("error.command_blocked_by_progress", args.as_slice())
        },
    };
    match rendered {
        Some(t) => t,
        None => String::new(),
    }
}

pub open spec fn to_storage(s: ActionItemStorageTarget) -> ItemStorageTarget {
    match s {
        ActionItemStorageTarget::PlayerInventory => ItemStorageTarget::PlayerInventory,
        ActionItemStorageTarget::CurrentRoom => ItemStorageTarget::CurrentRoom,
    }
}

pub fn to_item_storage(storage: ActionItemStorageTarget) -> (r: ItemStorageTarget)
    ensures
        r == to_storage(storage),
{
    match storage {
        ActionItemStorageTarget::PlayerInventory => ItemStorageTarget::PlayerInventory,
        ActionItemStorageTarget::CurrentRoom => ItemStorageTarget::CurrentRoom,
    }
}

pub open spec fn in_storage(state: &WorldState, item_id: Seq<char>, storage: ActionItemStorageTarget, room_id: Seq<char>) -> bool {
    state.spec_item_count_in_storage(item_id, to_storage(storage), room_id) > 0
}

/// Whether one of the items a command needs (or would use up) is at hand,
/// each looked for where the command says.
pub open spec fn has_any_needed(state: &WorldState, a: ActionAvailability, room_id: Seq<char>) -> bool {
    let all = a.requires_any@ + a.consumes_any@;
    exists|i: int| 0 <= i < all.len() && {
        let id = (#[trigger] all[i])@;
        let storage = if texts_of(a.consumes_any@).contains(id) { a.consumes_any_storage } else { a.requires_any_storage };
        in_storage(state, id, storage, room_id)
    }
}

/// Whether an actor can be picked by a command whose panel lists the
/// actors in the room: present, alive, not the player, and, for an attack,
/// not of the party.
pub open spec fn pickable_actor(content: &ContentPack, state: &WorldState, a: ActorDefinition, room_id: Seq<char>, attack: bool) -> bool {
    &&& !content.spec_is_player_actor(a.id@)
    &&& state.spec_actor_room_id(a.id@, a.room_id@) == room_id
    &&& !state.spec_actor_is_defeated(a.id@, content.settings.combat.health_stat_id@)
    &&& attack ==> state.spec_relationship(a.id@).stance != ActorStance::Allied && !state.spec_relationship(a.id@).follows_player
}

/// Whether an item can be made: it has no gate, an empty one, or its gate
/// variable is truthy.
pub open spec fn craft_open(state: &WorldState, creation: ItemCreation, item_id: Seq<char>) -> bool {
    let gates = creation.craftable_item_gates@;
    !gates.dom().contains(item_id) || gates[item_id]@.len() == 0 || spec_story_var_is_truthy(state, gates[item_id]@)
}

/// Whether an actor in the room can be picked.
pub open spec fn any_pickable_actor(content: &ContentPack, state: &WorldState, room_id: Seq<char>, attack: bool) -> bool {
    exists|i: int| 0 <= i < content.actors.len() && pickable_actor(content, state, #[trigger] content.actors@[i], room_id, attack)
}

/// Whether a command that makes items can make one now.
pub open spec fn any_craft_open(state: &WorldState, creation: Option<ItemCreation>) -> bool {
    creation is Some && exists|i: int| 0 <= i < creation->0.craftable_items.len()
        && craft_open(state, creation->0, (#[trigger] creation->0.craftable_items@[i])@)
}

/// Whether the player carries an item not worn.
pub open spec fn any_unworn_item(state: &WorldState) -> bool {
    exists|i: int| 0 <= i < state.player_inventory.key_seq().len()
        && state.player_inventory.val_seq()[i] > 0 && !is_equipped(state, #[trigger] state.player_inventory.key_seq()[i])
}

/// Whether a panel of the given kind has something to pick.
pub open spec fn panel_has_target(content: &ContentPack, state: &WorldState, action: &ActionDefinition, room_id: Seq<char>, source: PanelDataSource) -> bool {
    match source {
        PanelDataSource::ActorsInRoom => any_pickable_actor(content, state, room_id, action.spec_has_effect(CommandEffect::AttackTarget)),
        PanelDataSource::CraftableItems => any_craft_open(state, action.item_creation),
        PanelDataSource::Exits => true,
        PanelDataSource::Features => true,
        PanelDataSource::LooseRoomItems => loose_view(state, room_id).len() > 0,
        PanelDataSource::InventoryItems => any_unworn_item(state),
    }
}

/// Whether a command that picks a target from a panel has one to pick:
/// commands without a panel, and those whose panel only informs, always do.
pub open spec fn spec_has_available_target(content: &ContentPack, state: &WorldState, action: &ActionDefinition, room_id: Seq<char>) -> bool {
    match action.ui.panel_config {
        None => true,
        Some(config) => panel_has_target(content, state, action, room_id, config.data_source),
    }
}

fn actors_pickable(content: &ContentPack, state: &WorldState, room_id: &str, attack: bool) -> (r: bool)
    requires
        state.wf(),
    ensures
        r == any_pickable_actor(content, state, room_id@, attack),
{
    let mut i: usize = 0;
    while i < content.actors.len()
        invariant
            state.wf(),
            i <= content.actors.len(),
            forall|j: int| 0 <= j < i ==> !pickable_actor(content, state, #[trigger] content.actors@[j], room_id@, attack),
        decreases content.actors.len() - i,
    {
        let actor = &content.actors[i];
        if !content.is_player_actor(actor.id.as_str())
            && str_eq(state.actor_room_id(actor.id.as_str(), actor.room_id.as_str()), room_id)
            && !state.actor_is_defeated(actor.id.as_str(), content.settings.combat.health_stat_id.as_str()) {
            let ok = if attack {
                let rel = state.relationship(actor.id.as_str());
                rel.stance != ActorStance::Allied && !rel.follows_player
            } else {
                true
            };
            if ok {
                assert(pickable_actor(content, state, content.actors@[i as int], room_id@, attack));
                return true;
            }
        }
        i = i + 1;
    }
    false
}

proof fn lemma_craft_witness(state: &WorldState, c: ItemCreation, i: int)
    requires
        0 <= i < c.craftable_items.len(),
        craft_open(state, c, c.craftable_items@[i]@),
    ensures
        any_craft_open(state, Some(c)),
{
    let o = Some(c);
    assert(o->0 == c);
    assert(o->0.craftable_items@[i] == c.craftable_items@[i]);
    assert(craft_open(state, o->0, o->0.craftable_items@[i]@));
}

fn craft_possible(state: &WorldState, creation: &Option<ItemCreation>) -> (r: bool)
    requires
        state.wf(),
        creation matches Some(c) ==> c.craftable_item_gates.wf(),
    ensures
        r == any_craft_open(state, *creation),
{
    let c = match creation {
        Some(c) => c,
        None => return false,
    };
    let mut i: usize = 0;
    while i < c.craftable_items.len()
        invariant
            state.wf(),
            *creation == Some(*c),
            c.craftable_item_gates.wf(),
            i <= c.craftable_items.len(),
            forall|j: int| 0 <= j < i ==> !craft_open(state, *c, (#[trigger] c.craftable_items@[j])@),
        decreases c.craftable_items.len() - i,
    {
        let id = c.craftable_items[i].as_str();
        let open = match c.craftable_item_gates.get_str(id) {
            None => true,
            Some(gate) => gate.as_str().is_empty() || story_var_is_truthy(state, gate.as_str()),
        };
        if open {
            assert(craft_open(state, *c, c.craftable_items@[i as int]@));
            proof { lemma_craft_witness(state, *c, i as int); }
            return true;
        }
        i = i + 1;
    }
    false
}

fn carries_unworn_item(state: &WorldState) -> (r: bool)
    requires
        state.wf(),
    ensures
        r == any_unworn_item(state),
{
    let inv = &state.player_inventory;
    proof { inv.lemma_contents(); }
    let mut i: usize = 0;
    while i < inv.len()
        invariant
            state.wf(),
            inv == &state.player_inventory,
            inv.key_seq().len() == inv.val_seq().len(),
            i <= inv.key_seq().len(),
            forall|j: int| 0 <= j < i ==> !(inv.val_seq()[j] > 0 && !is_equipped(state, #[trigger] inv.key_seq()[j])),
        decreases inv.key_seq().len() - i,
    {
        let count = *inv.value_at(i);
        let id = string_from_chars(inv.key_at(i));
        if count > 0 && !item_is_worn(state, id.as_str()) {
            assert(inv.val_seq()[i as int] > 0 && !is_equipped(state, inv.key_seq()[i as int]));
            return true;
        }
        i = i + 1;
    }
    false
}

fn action_has_available_target(content: &ContentPack, state: &WorldState, action: &ActionDefinition, room_id: &str) -> (r: bool)
    requires
        state.wf(),
        action.item_creation matches Some(c) ==> c.craftable_item_gates.wf(),
    ensures
        r == spec_has_available_target(content, state, action, room_id@),
{
    let config = match &action.ui.panel_config {
        Some(c) => c,
        None => return true,
    };
    match config.data_source {
        PanelDataSource::ActorsInRoom => actors_pickable(content, state, room_id, action.has_effect(CommandEffect::AttackTarget)),
        PanelDataSource::CraftableItems => craft_possible(state, &action.item_creation),
        PanelDataSource::Exits => true,
        PanelDataSource::Features => true,
        PanelDataSource::LooseRoomItems => {
            let loose = state.loose_room_items(room_id);
            assert(loose@.map_values(|e: (String, u32)| (e.0@, e.1)).len() == loose@.len());
            loose.len() > 0
        },
        PanelDataSource::InventoryItems => carries_unworn_item(state),
    }
}

/// Whether a command can be used in a room now: every condition the pack
/// sets on it holds, the items it works on are where it needs them, and it
/// has something to act on.
pub open spec fn spec_action_is_available(content: &ContentPack, state: &WorldState, action: &ActionDefinition, room_id: Seq<char>) -> bool {
    let a = action.available;
    let item = action.item_id@;
    &&& a.allowed_rooms.len() == 0 || texts_of(a.allowed_rooms@).contains(room_id)
    &&& a.requires_room_item@.len() == 0 || room_has(state, a.requires_room_item@, room_id)
    &&& a.requires_room_without_item@.len() == 0 || !room_has(state, a.requires_room_without_item@, room_id)
    &&& a.requires_story_var@.len() == 0 || spec_story_var_is_truthy(state, a.requires_story_var@)
    &&& during_active_stage(state, a.available_during@)
    &&& match a.consumes_item { Some(id) => in_storage(state, id@, a.consumes_item_storage, room_id), None => true }
    &&& (a.requires_any.len() == 0 && a.consumes_any.len() == 0) || has_any_needed(state, a, room_id)
    &&& action.spec_has_effect(CommandEffect::EquipItem) ==> state.spec_item_count(item) > 0
    &&& action.spec_has_effect(CommandEffect::UseItem) ==> state.spec_item_count(item) > 0
    &&& action.spec_has_effect(CommandEffect::UnequipItem) ==> content.has_item(item)
        && state.equipment@.dom().contains(content.spec_item(item).equip_slot@)
        && state.equipment@[content.spec_item(item).equip_slot@]@ == item
    &&& forall|i: int| 0 <= i < a.required_objective_progress.len() ==> progress_met(content, state, #[trigger] a.required_objective_progress@[i])
    &&& forall|i: int| 0 <= i < a.blocked_by_objective_progress.len() ==> !progress_met(content, state, #[trigger] a.blocked_by_objective_progress@[i])
    &&& spec_has_available_target(content, state, action, room_id)
}

fn any_in_storage(state: &WorldState, a: &ActionAvailability, room_id: &str) -> (r: bool)
    requires
        state.wf(),
    ensures
        r == has_any_needed(state, *a, room_id@),
{
    let ghost all = a.requires_any@ + a.consumes_any@;
    let mut i: usize = 0;
    while i < a.requires_any.len()
        invariant
            state.wf(),
            all == a.requires_any@ + a.consumes_any@,
            i <= a.requires_any.len(),
            forall|j: int| 0 <= j < i ==> !{
                let id = (#[trigger] all[j])@;
                let storage = if texts_of(a.consumes_any@).contains(id) { a.consumes_any_storage } else { a.requires_any_storage };
                in_storage(state, id, storage, room_id@)
            },
        decreases a.requires_any.len() - i,
    {
        let id = a.requires_any[i].as_str();
        assert(all[i as int] == a.requires_any@[i as int]);
        let storage = if list_contains(&a.consumes_any, id) { a.consumes_any_storage } else { a.requires_any_storage };
        if state.has_item_in_storage(id, to_item_storage(storage), room_id) {
            return true;
        }
        i = i + 1;
    }
    let mut k: usize = 0;
    while k < a.consumes_any.len()
        invariant
            state.wf(),
            all == a.requires_any@ + a.consumes_any@,
            k <= a.consumes_any.len(),
            forall|j: int| 0 <= j < a.requires_any.len() + k ==> !{
                let id = (#[trigger] all[j])@;
                let storage = if texts_of(a.consumes_any@).contains(id) { a.consumes_any_storage } else { a.requires_any_storage };
                in_storage(state, id, storage, room_id@)
            },
        decreases a.consumes_any.len() - k,
    {
        let id = a.consumes_any[k].as_str();
        assert(all[a.requires_any.len() + k] == a.consumes_any@[k as int]);
        let storage = if list_contains(&a.consumes_any, id) { a.consumes_any_storage } else { a.requires_any_storage };
        if state.has_item_in_storage(id, to_item_storage(storage), room_id) {
            return true;
        }
        k = k + 1;
    }
    false
}


/// Whether a command can be used in the given room now.
pub fn action_is_available(content: &ContentPack, state: &WorldState, action: &ActionDefinition, context_room_id: &str) -> (r: bool)
    requires
        state.wf(),
        action.item_creation matches Some(c) ==> c.craftable_item_gates.wf(),
    ensures
        r == spec_action_is_available(content, state, action, context_room_id@),
{
    let a = &action.available;
    assert(*a == action.available);
    if a.allowed_rooms.len() > 0 && !list_contains(&a.allowed_rooms, context_room_id) {
        return false;
    }
    if !a.requires_room_item.as_str().is_empty()
        && !state.has_item_in_storage(a.requires_room_item.as_str(), ItemStorageTarget::CurrentRoom, context_room_id) {
        return false;
    }
    if !a.requires_room_without_item.as_str().is_empty()
        && state.has_item_in_storage(a.requires_room_without_item.as_str(), ItemStorageTarget::CurrentRoom, context_room_id) {
        return false;
    }
    if !a.requires_story_var.as_str().is_empty() && !story_var_is_truthy(state, a.requires_story_var.as_str()) {
        return false;
    }
    if !stage_is_active_for(state, &a.available_during) {
        return false;
    }
    match &a.consumes_item {
        Some(id) => {
            if !state.has_item_in_storage(id.as_str(), to_item_storage(a.consumes_item_storage), context_room_id) {
                return false;
            }
        },
        None => {},
    }
    if (a.requires_any.len() > 0 || a.consumes_any.len() > 0) && !any_in_storage(state, a, context_room_id) {
        return false;
    }
    if action.has_effect(CommandEffect::EquipItem) && !state.has_item(action.item_id.as_str()) {
        return false;
    }
    if action.has_effect(CommandEffect::UseItem) && !state.has_item(action.item_id.as_str()) {
        return false;
    }
    if action.has_effect(CommandEffect::UnequipItem) {
        let equipped = match content.item(action.item_id.as_str()) {
            Some(item) => match state.equipped_item(item.equip_slot.as_str()) {
                Some(e) => str_eq(e, action.item_id.as_str()),
                None => false,
            },
            None => false,
        };
        if !equipped {
            return false;
        }
    }
    let mut i: usize = 0;
    while i < a.required_objective_progress.len()
        invariant
            state.wf(),
            *a == action.available,
            i <= a.required_objective_progress.len(),
            forall|j: int| 0 <= j < i ==> progress_met(content, state, #[trigger] a.required_objective_progress@[j]),
        decreases a.required_objective_progress.len() - i,
    {
        if !objective_progress_is_met(content, state, &a.required_objective_progress[i]) {
            assert(!progress_met(content, state, a.required_objective_progress@[i as int]));
            return false;
        }
        i = i + 1;
    }
    let mut k: usize = 0;
    while k < a.blocked_by_objective_progress.len()
        invariant
            state.wf(),
            *a == action.available,
            k <= a.blocked_by_objective_progress.len(),
            forall|j: int| 0 <= j < k ==> !progress_met(content, state, #[trigger] a.blocked_by_objective_progress@[j]),
        decreases a.blocked_by_objective_progress.len() - k,
    {
        if objective_progress_is_met(content, state, &a.blocked_by_objective_progress[k]) {
            assert(progress_met(content, state, a.blocked_by_objective_progress@[k as int]));
            return false;
        }
        k = k + 1;
    }
    action_has_available_target(content, state, action, context_room_id)
}

/// Story variables after a command records the steps it makes and forgets
/// the ones it undoes.
pub open spec fn set_progress(m: Map<Seq<char>, Seq<char>>, refs: Seq<BeatObjectiveProgressRef>, n: int) -> Map<Seq<char>, Seq<char>>
    decreases n,
{
    if n <= 0 { m } else { set_progress(m, refs, n - 1).insert(progress_key(refs[n - 1].objective_id@, refs[n - 1].key@), "true"@) }
}

pub open spec fn clear_progress(m: Map<Seq<char>, Seq<char>>, refs: Seq<BeatObjectiveProgressRef>, n: int) -> Map<Seq<char>, Seq<char>>
    decreases n,
{
    if n <= 0 { m } else { clear_progress(m, refs, n - 1).remove(progress_key(refs[n - 1].objective_id@, refs[n - 1].key@)) }
}

/// Records the steps a command makes, then forgets the steps it undoes.
pub fn apply_command_objective_progress_effects(state: &mut WorldState, action: &ActionDefinition)
    requires
        old(state).wf(),
    ensures
        final(state).wf(),
        final(state).story_vars.vals() == clear_progress(
            set_progress(old(state).story_vars.vals(), action.sets_objective_progress@, action.sets_objective_progress.len() as int),
            action.clears_objective_progress@, action.clears_objective_progress.len() as int),
        final(state).story_vars.decls() == old(state).story_vars.decls(),
        *final(state) == (WorldState { story_vars: final(state).story_vars, ..*old(state) }),
{
    let mut i: usize = 0;
    while i < action.sets_objective_progress.len()
        invariant
            state.wf(),
            i <= action.sets_objective_progress.len(),
            state.story_vars.vals() == set_progress(old(state).story_vars.vals(), action.sets_objective_progress@, i as int),
            state.story_vars.decls() == old(state).story_vars.decls(),
            *state == (WorldState { story_vars: state.story_vars, ..*old(state) }),
        decreases action.sets_objective_progress.len() - i,
    {
        let p = &action.sets_objective_progress[i];
        let key = objective_progress_story_var_key(p.objective_id.as_str(), p.key.as_str());
        state.story_vars.set_unchecked(key.as_str(), "true");
        i = i + 1;
    }
    let ghost mid = state.story_vars.vals();
    let mut k: usize = 0;
    while k < action.clears_objective_progress.len()
        invariant
            state.wf(),
            k <= action.clears_objective_progress.len(),
            state.story_vars.vals() == clear_progress(mid, action.clears_objective_progress@, k as int),
            state.story_vars.decls() == old(state).story_vars.decls(),
            *state == (WorldState { story_vars: state.story_vars, ..*old(state) }),
        decreases action.clears_objective_progress.len() - k,
    {
        let p = &action.clears_objective_progress[k];
        let key = objective_progress_story_var_key(p.objective_id.as_str(), p.key.as_str());
        state.story_vars.remove_value(key.as_str());
        k = k + 1;
    }
}

/// Whether one of an objective's stages is active.
pub open spec fn objective_active(state: &WorldState, o: BeatObjectiveDefinition) -> bool {
    exists|i: int| 0 <= i < o.stage_ids.len() && texts_of(state.active_objective_stage_ids@).contains(#[trigger] o.stage_ids@[i]@)
}

pub open spec fn forget_actor_marks(m: Map<Seq<char>, Seq<char>>, objective_id: Seq<char>, actors: Seq<ActorDefinition>, n: int) -> Map<Seq<char>, Seq<char>>
    decreases n,
{
    if n <= 0 { m } else { forget_actor_marks(m, objective_id, actors, n - 1).remove(actor_complete_key(objective_id, actors[n - 1].id@)) }
}

pub open spec fn forget_progress(m: Map<Seq<char>, Seq<char>>, objective_id: Seq<char>, keys: Seq<crate::content::BeatObjectiveProgressKey>, n: int)
    -> Map<Seq<char>, Seq<char>>
    decreases n,
{
    if n <= 0 { m } else { forget_progress(m, objective_id, keys, n - 1).remove(progress_key(objective_id, keys[n - 1].key@)) }
}

/// Story variables once the first `n` objectives that are not active have
/// their marks forgotten: each actor's completion and each step of progress.
pub open spec fn forget_inactive(m: Map<Seq<char>, Seq<char>>, content: &ContentPack, state: &WorldState, n: int) -> Map<Seq<char>, Seq<char>>
    decreases n,
{
    if n <= 0 {
        m
    } else {
        let prev = forget_inactive(m, content, state, n - 1);
        let o = content.beat_objectives.objectives@[n - 1];
        if objective_active(state, o) {
            prev
        } else {
            forget_progress(forget_actor_marks(prev, o.id@, content.actors@, content.actors.len() as int), o.id@, o.progress.keys@,
                o.progress.keys.len() as int)
        }
    }
}

fn objective_is_active(state: &WorldState, o: &BeatObjectiveDefinition) -> (r: bool)
    ensures
        r == objective_active(state, *o),
{
    let mut i: usize = 0;
    while i < o.stage_ids.len()
        invariant
            i <= o.stage_ids.len(),
            forall|j: int| 0 <= j < i ==> !texts_of(state.active_objective_stage_ids@).contains(#[trigger] o.stage_ids@[j]@),
        decreases o.stage_ids.len() - i,
    {
        if list_contains(&state.active_objective_stage_ids, o.stage_ids[i].as_str()) {
            return true;
        }
        i = i + 1;
    }
    false
}

/// Forgets the marks of every objective none of whose stages is active.
pub fn clear_inactive_objective_state(content: &ContentPack, state: &mut WorldState)
    requires
        old(state).wf(),
    ensures
        final(state).wf(),
        final(state).story_vars.vals() == forget_inactive(old(state).story_vars.vals(), content, &*old(state),
            content.beat_objectives.objectives.len() as int),
        final(state).story_vars.decls() == old(state).story_vars.decls(),
        *final(state) == (WorldState { story_vars: final(state).story_vars, ..*old(state) }),
{
    let objectives = &content.beat_objectives.objectives;
    let mut i: usize = 0;
    while i < objectives.len()
        invariant
            state.wf(),
            objectives == &content.beat_objectives.objectives,
            i <= objectives.len(),
            state.story_vars.vals() == forget_inactive(old(state).story_vars.vals(), content, &*old(state), i as int),
            state.story_vars.decls() == old(state).story_vars.decls(),
            *state == (WorldState { story_vars: state.story_vars, ..*old(state) }),
        decreases objectives.len() - i,
    {
        let o = &objectives[i];
        assert(objective_active(&*state, *o) == objective_active(&*old(state), *o));
        if !objective_is_active(state, o) {
            let ghost start = state.story_vars.vals();
            let mut a: usize = 0;
            while a < content.actors.len()
                invariant
                    state.wf(),
                    a <= content.actors.len(),
                    state.story_vars.vals() == forget_actor_marks(start, o.id@, content.actors@, a as int),
                    state.story_vars.decls() == old(state).story_vars.decls(),
                    *state == (WorldState { story_vars: state.story_vars, ..*old(state) }),
                decreases content.actors.len() - a,
            {
                let key = objective_actor_complete_key(o.id.as_str(), content.actors[a].id.as_str());
                state.story_vars.remove_value(key.as_str());
                a = a + 1;
            }
            let ghost after_actors = state.story_vars.vals();
            let mut k: usize = 0;
            while k < o.progress.keys.len()
                invariant
                    state.wf(),
                    k <= o.progress.keys.len(),
                    state.story_vars.vals() == forget_progress(after_actors, o.id@, o.progress.keys@, k as int),
                    state.story_vars.decls() == old(state).story_vars.decls(),
                    *state == (WorldState { story_vars: state.story_vars, ..*old(state) }),
                decreases o.progress.keys.len() - k,
            {
                let key = objective_progress_story_var_key(o.id.as_str(), o.progress.keys[k].key.as_str());
                state.story_vars.remove_value(key.as_str());
                k = k + 1;
            }
        }
        i = i + 1;
    }
}

proof fn lemma_set_progress_has(m: Map<Seq<char>, Seq<char>>, refs: Seq<BeatObjectiveProgressRef>, n: int, j: int, key: Seq<char>)
    requires
        0 <= j < n <= refs.len(),
        key == progress_key(refs[j].objective_id@, refs[j].key@),
    ensures
        set_progress(m, refs, n).dom().contains(key),
        set_progress(m, refs, n)[key] == "true"@,
    decreases n,
{
    if n - 1 > j {
        lemma_set_progress_has(m, refs, n - 1, j, key);
    }
}

proof fn lemma_clear_progress_keeps(m: Map<Seq<char>, Seq<char>>, refs: Seq<BeatObjectiveProgressRef>, n: int, key: Seq<char>)
    requires
        0 <= n <= refs.len(),
        forall|i: int| 0 <= i < refs.len() ==> progress_key((#[trigger] refs[i]).objective_id@, refs[i].key@) != key,
    ensures
        clear_progress(m, refs, n).dom().contains(key) == m.dom().contains(key),
        m.dom().contains(key) ==> clear_progress(m, refs, n)[key] == m[key],
    decreases n,
{
    if n > 0 {
        lemma_clear_progress_keeps(m, refs, n - 1, key);
    }
}

/// A step that a command records is made afterwards, as long as its
/// objective is known and the same command does not also undo it.
pub proof fn law_recorded_progress_is_met(content: &ContentPack, before: &WorldState, after: &WorldState, action: &ActionDefinition, j: int)
    requires
        after.story_vars.vals() == clear_progress(
            set_progress(before.story_vars.vals(), action.sets_objective_progress@, action.sets_objective_progress.len() as int),
            action.clears_objective_progress@, action.clears_objective_progress.len() as int),
        0 <= j < action.sets_objective_progress.len(),
        objective_known(content, action.sets_objective_progress@[j].objective_id@),
        forall|i: int| 0 <= i < action.clears_objective_progress.len() ==>
            progress_key((#[trigger] action.clears_objective_progress@[i]).objective_id@, action.clears_objective_progress@[i].key@)
                != progress_key(action.sets_objective_progress@[j].objective_id@, action.sets_objective_progress@[j].key@),
    ensures
        progress_met(content, after, action.sets_objective_progress@[j]),
{
    let r = action.sets_objective_progress@[j];
    let key = progress_key(r.objective_id@, r.key@);
    let mid = set_progress(before.story_vars.vals(), action.sets_objective_progress@, action.sets_objective_progress.len() as int);
    lemma_set_progress_has(before.story_vars.vals(), action.sets_objective_progress@, action.sets_objective_progress.len() as int, j, key);
    lemma_clear_progress_keeps(mid, action.clears_objective_progress@, action.clears_objective_progress.len() as int, key);
}

} // verus!

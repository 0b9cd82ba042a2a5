use vstd::prelude::*;
use crate::content::{find_option, first_option, ContentPack, OpeningMenuDefinition, OpeningMenuOptionDefinition};
use crate::narrative::{narration_views, NarrativeLineKind, NarrativeLines};
use crate::reducer::beat_advance::{advance_objective_for_signal, advance_outcome, only_story_fields_changed, signal_headroom};
use crate::reducer::observation::{join_texts, render_story_text, story_text};
use crate::reducer::summaries::join_with;
use crate::state::WorldState;
use crate::text::{cat, str_eq, string_of};

verus! {

/// The texts of a list of strings.
pub open spec fn strs(v: Seq<String>) -> Seq<Seq<char>> {
    v.map_values(|s: String| s@)
}

/// A menu's opening lines, with story variables filled in from `state`.
pub open spec fn opening_lines(menu: OpeningMenuDefinition, state: &WorldState) -> Seq<Seq<char>> {
    Seq::new(menu.opening_narrative_lines@.len(), |i: int| story_text(menu.opening_narrative_lines@[i]@, state))
}

/// Opens a menu: it becomes the active one with no picks pending, and its
/// opening lines are told when the pack has it.
pub fn open_menu(state: &mut WorldState, content: &ContentPack, menu_id: &str, lines: &mut NarrativeLines)
    requires
        old(state).wf(),
    ensures
        final(state).wf(),
        final(state).active_menu_id matches Some(m) && m@ == menu_id@,
        *final(state) == (WorldState { active_menu_id: final(state).active_menu_id,
            pending_menu_selections: final(state).pending_menu_selections, ..*old(state) }),
        final(state).pending_menu_selections@.len() == 0,
        final(lines).views() == old(lines).views() + if content.has_menu(menu_id@) {
            narration_views_of(opening_lines(content.spec_menu(menu_id@), old(state)))
        } else {
            Seq::empty()
        },
{
    state.active_menu_id = Some(string_of(menu_id));
    state.pending_menu_selections = Vec::new();
    match content.menu(menu_id) {
        Some(menu) => {
            let mut told: Vec<String> = Vec::new();
            let mut i: usize = 0;
            while i < menu.opening_narrative_lines.len()
                invariant
                    state.wf(),
                    i <= menu.opening_narrative_lines.len(),
                    state.story_vars == old(state).story_vars,
                    state.actor_stats == old(state).actor_stats,
                    strs(told@) == opening_lines(*menu, old(state)).take(i as int),
                decreases menu.opening_narrative_lines.len() - i,
            {
                let ghost before = told@;
                let t = render_story_text(menu.opening_narrative_lines[i].as_str(), state);
                assert(t@ == story_text(menu.opening_narrative_lines@[i as int]@, old(state)));
                told.push(t);
                assert(told@ == before.push(t));
                assert(strs(told@) =~= strs(before).push(t@));
                assert(strs(told@) =~= opening_lines(*menu, old(state)).take(i as int + 1));
                i = i + 1;
            }
            assert(opening_lines(*menu, old(state)).take(i as int) =~= opening_lines(*menu, old(state)));
            let ghost told_views = told@;
            lines.extend_narration(told);
            assert(narration_views(told_views) =~= narration_views_of(opening_lines(*menu, old(state))));
        },
        None => {
            assert(old(lines).views() + Seq::<(NarrativeLineKind, Seq<char>)>::empty() =~= old(lines).views());
        },
    }
}

/// Narration lines for the given texts.
pub open spec fn narration_views_of(texts: Seq<Seq<char>>) -> Seq<(NarrativeLineKind, Seq<char>)> {
    texts.map_values(|t: Seq<char>| (NarrativeLineKind::Narration, t))
}

/// The signal a menu sends when it opens.
fn menu_signal(prefix: &str, menu_id: &str) -> (r: String)
    ensures
        r@ == prefix@ + menu_id@,
{
    cat(prefix, menu_id)
}

/// A menu opens (see `open_menu`), and the stages hear that it opened.
pub fn handle_menu_opened(state: &mut WorldState, content: &ContentPack, menu_id: &str, lines: &mut NarrativeLines)
    requires
        old(state).wf(),
        content.wf(),
        signal_headroom(old(state), content, 1),
    ensures
        final(state).wf(),
        final(state).pending_menu_selections@.len() == 0,
        ({
            let told = old(lines).views() + if content.has_menu(menu_id@) {
                narration_views_of(opening_lines(content.spec_menu(menu_id@), old(state)))
            } else {
                Seq::empty()
            };
            &&& final(lines).views().len() >= told.len()
            &&& final(lines).views().take(told.len() as int) == told
        }),
{
    open_menu(state, content, menu_id, lines);
    let ghost told = lines.views();
    proof {
        crate::reducer::beat_advance::lemma_room_fewer(state.current_time_minutes as int, state.stages_completed as int,
            state.active_objective_stage_ids.len() as int, crate::reducer::beat_advance::max_next_len(content.beats.stages@) as int,
            crate::reducer::beat_advance::max_elapsed(content.beats.stages@) as int, 1, 1);
    }
    let messages = advance_objective_for_signal(state, content, menu_signal("menu_opened:", menu_id).as_str());
    lines.extend_narration(messages);
    assert(lines.views().take(told.len() as int) =~= told);
}

/// What can be taken from an option of a multiple pick.
pub enum PickKind {
    Title,
    Room,
    Host,
}

/// What an option gives for a kind of pick: its title, or its room or host
/// when it names one.
pub open spec fn pick_of(o: OpeningMenuOptionDefinition, kind: PickKind) -> Option<Seq<char>> {
    match kind {
        PickKind::Title => Some(o.title@),
        PickKind::Room => if o.room_id@.len() > 0 { Some(o.room_id@) } else { None },
        PickKind::Host => if o.host_actor_id@.len() > 0 { Some(o.host_actor_id@) } else { None },
    }
}

/// What the first `n` picked ids give, in pick order, skipping ids that no
/// option has and options that give nothing.
pub open spec fn picked(options: Seq<OpeningMenuOptionDefinition>, ids: Seq<Seq<char>>, kind: PickKind, n: int) -> Seq<Seq<char>>
    decreases n,
{
    if n <= 0 {
        Seq::empty()
    } else {
        let prev = picked(options, ids, kind, n - 1);
        match first_option(options, ids[n - 1]) {
            Some(o) => match pick_of(o, kind) {
                Some(v) => prev.push(v),
                None => prev,
            },
            None => prev,
        }
    }
}

/// The variables after writing the first `n` keys in order, each with the
/// value at its position, or nothing when there are fewer values.
pub open spec fn write_slots(vals: Map<Seq<char>, Seq<char>>, keys: Seq<Seq<char>>, values: Seq<Seq<char>>, n: int)
    -> Map<Seq<char>, Seq<char>>
    decreases n,
{
    if n <= 0 {
        vals
    } else {
        write_slots(vals, keys, values, n - 1).insert(keys[n - 1], if n - 1 < values.len() { values[n - 1] } else { Seq::empty() })
    }
}

/// The variables once a multiple pick is confirmed: `selection_title` and
/// the menu's title key (when it has no title slots) take the titles joined
/// by commas, each slot key takes its title, room or host, and the id key
/// takes the ids joined by commas.
pub open spec fn multi_choice_vars(vals: Map<Seq<char>, Seq<char>>, menu: OpeningMenuDefinition, ids: Seq<Seq<char>>)
    -> Map<Seq<char>, Seq<char>> {
    let titles = picked(menu.options@, ids, PickKind::Title, ids.len() as int);
    let rooms = picked(menu.options@, ids, PickKind::Room, ids.len() as int);
    let hosts = picked(menu.options@, ids, PickKind::Host, ids.len() as int);
    let joined_titles = join_with(titles, ", "@);
    let title_keys = strs(menu.multi_selection_var_keys@);
    let room_keys = strs(menu.multi_selection_room_var_keys@);
    let host_keys = strs(menu.multi_selection_host_var_keys@);
    let v1 = vals.insert("selection_title"@, joined_titles);
    let v2 = write_slots(v1, title_keys, titles, title_keys.len() as int);
    let v3 = write_slots(v2, room_keys, rooms, room_keys.len() as int);
    let v4 = write_slots(v3, host_keys, hosts, host_keys.len() as int);
    let v5 = if title_keys.len() == 0 && menu.selection_var_key@.len() > 0 { v4.insert(menu.selection_var_key@, joined_titles) } else { v4 };
    if menu.selection_id_var_key@.len() > 0 { v5.insert(menu.selection_id_var_key@, join_with(ids, ", "@)) } else { v5 }
}

/// The variables once a single option is picked: `selection_title` and the
/// menu's title key take the title, and its id key the option's id.
pub open spec fn single_choice_vars(vals: Map<Seq<char>, Seq<char>>, menu: OpeningMenuDefinition, option_id: Seq<char>, title: Seq<char>)
    -> Map<Seq<char>, Seq<char>> {
    let v1 = vals.insert("selection_title"@, title);
    let v2 = if menu.selection_var_key@.len() > 0 { v1.insert(menu.selection_var_key@, title) } else { v1 };
    if menu.selection_id_var_key@.len() > 0 { v2.insert(menu.selection_id_var_key@, option_id) } else { v2 }
}

/// Whether a pick confirms a multiple-choice menu.
pub open spec fn confirms_multi(menu: OpeningMenuDefinition, option_id: Seq<char>) -> bool {
    menu.max_selections > 0 && option_id == "done"@
}

fn collect_picks(options: &Vec<OpeningMenuOptionDefinition>, ids: &Vec<String>, kind: PickKind) -> (r: Vec<String>)
    ensures
        strs(r@) == picked(options@, strs(ids@), kind, ids@.len() as int),
{
    let mut out: Vec<String> = Vec::new();
    let mut i: usize = 0;
    while i < ids.len()
        invariant
            i <= ids.len(),
            strs(out@) == picked(options@, strs(ids@), kind, i as int),
        decreases ids.len() - i,
    {
        let ghost before = out@;
        match find_option(options, ids[i].as_str()) {
            Some(o) => {
                let value = match kind {
                    PickKind::Title => Some(string_of(o.title.as_str())),
                    PickKind::Room => if o.room_id.as_str().unicode_len() > 0 { Some(string_of(o.room_id.as_str())) } else { None },
                    PickKind::Host => if o.host_actor_id.as_str().unicode_len() > 0 { Some(string_of(o.host_actor_id.as_str())) } else { None },
                };
                match value {
                    Some(v) => {
                        out.push(v);
                        assert(strs(out@) =~= strs(before).push(v@));
                    },
                    None => {},
                }
            },
            None => {},
        }
        i = i + 1;
    }
    out
}

fn write_slot_values(state: &mut WorldState, keys: &Vec<String>, values: &Vec<String>)
    requires
        old(state).wf(),
    ensures
        final(state).wf(),
        *final(state) == (WorldState { story_vars: final(state).story_vars, ..*old(state) }),
        final(state).story_vars.decls() == old(state).story_vars.decls(),
        final(state).story_vars.vals() == write_slots(old(state).story_vars.vals(), strs(keys@), strs(values@), keys@.len() as int),
{
    let mut i: usize = 0;
    while i < keys.len()
        invariant
            i <= keys.len(),
            state.wf(),
            *state == (WorldState { story_vars: state.story_vars, ..*old(state) }),
            state.story_vars.decls() == old(state).story_vars.decls(),
            state.story_vars.vals() == write_slots(old(state).story_vars.vals(), strs(keys@), strs(values@), i as int),
        decreases keys.len() - i,
    {
        if i < values.len() {
            state.story_vars.set_unchecked(keys[i].as_str(), values[i].as_str());
        } else {
            let empty = String::new();
            assert(empty@ =~= Seq::<char>::empty());
            state.story_vars.set_unchecked(keys[i].as_str(), empty.as_str());
        }
        i = i + 1;
    }
}

fn set_var(state: &mut WorldState, key: &str, value: &str)
    requires
        old(state).wf(),
    ensures
        final(state).wf(),
        *final(state) == (WorldState { story_vars: final(state).story_vars, ..*old(state) }),
        final(state).story_vars.decls() == old(state).story_vars.decls(),
        final(state).story_vars.vals() == old(state).story_vars.vals().insert(key@, value@),
{
    state.story_vars.set_unchecked(key, value);
}

/// Records a pick in a menu: the menu closes; when the pack has the menu,
/// the pick is written to the story variables (a confirmed multiple pick by
/// `multi_choice_vars` over the pending picks, any other by
/// `single_choice_vars`), its confirmation is told, and no picks stay
/// pending.
pub fn apply_menu_choice(state: &mut WorldState, content: &ContentPack, menu_id: &str, option_id: &str, title: &str,
    lines: &mut NarrativeLines)
    requires
        old(state).wf(),
    ensures
        final(state).wf(),
        final(state).active_menu_id is None,
        !content.has_menu(menu_id@) ==> *final(state) == (WorldState { active_menu_id: None, ..*old(state) })
            && final(lines).views() == old(lines).views(),
        content.has_menu(menu_id@) ==> {
            let menu = content.spec_menu(menu_id@);
            let vals = if confirms_multi(menu, option_id@) {
                multi_choice_vars(old(state).story_vars.vals(), menu, strs(old(state).pending_menu_selections@))
            } else {
                single_choice_vars(old(state).story_vars.vals(), menu, option_id@, title@)
            };
            &&& *final(state) == (WorldState { active_menu_id: None, story_vars: final(state).story_vars,
                pending_menu_selections: final(state).pending_menu_selections, ..*old(state) })
            &&& final(state).pending_menu_selections@.len() == 0
            &&& final(state).story_vars.decls() == old(state).story_vars.decls()
            &&& final(state).story_vars.vals() == vals
            &&& final(lines).views() == old(lines).views().push((NarrativeLineKind::Narration,
                story_text(menu.selection_confirmation@, &*final(state))))
        },
{
    state.active_menu_id = None;
    let menu = match content.menu(menu_id) {
        Some(m) => m,
        None => return,
    };
    let ghost start = *state;
    if menu.max_selections > 0 && str_eq(option_id, "done") {
        let titles = collect_picks(&menu.options, &state.pending_menu_selections, PickKind::Title);
        let rooms = collect_picks(&menu.options, &state.pending_menu_selections, PickKind::Room);
        let hosts = collect_picks(&menu.options, &state.pending_menu_selections, PickKind::Host);
        let joined_titles = join_texts(&titles, ", ");
        let joined_ids = join_texts(&state.pending_menu_selections, ", ");
        set_var(state, "selection_title", joined_titles.as_str());
        write_slot_values(state, &menu.multi_selection_var_keys, &titles);
        write_slot_values(state, &menu.multi_selection_room_var_keys, &rooms);
        write_slot_values(state, &menu.multi_selection_host_var_keys, &hosts);
        if menu.multi_selection_var_keys.len() == 0 && menu.selection_var_key.as_str().unicode_len() > 0 {
            set_var(state, menu.selection_var_key.as_str(), joined_titles.as_str());
        }
        if menu.selection_id_var_key.as_str().unicode_len() > 0 {
            set_var(state, menu.selection_id_var_key.as_str(), joined_ids.as_str());
        }
    } else {
        set_var(state, "selection_title", title);
        if menu.selection_var_key.as_str().unicode_len() > 0 {
            set_var(state, menu.selection_var_key.as_str(), title);
        }
        if menu.selection_id_var_key.as_str().unicode_len() > 0 {
            set_var(state, menu.selection_id_var_key.as_str(), option_id);
        }
    }
    let confirmation = render_story_text(menu.selection_confirmation.as_str(), state);
    lines.narration(confirmation);
    state.pending_menu_selections = Vec::new();
    proof {
        assert(lines.views() =~= old(lines).views().push((NarrativeLineKind::Narration, story_text(menu.selection_confirmation@, &*state))));
    }
}

/// The line a pick adds: the menu's confirmation, with the story variables
/// of `state` filled in, when the pack has the menu.
pub open spec fn choice_lines(content: &ContentPack, state: &WorldState, menu_id: Seq<char>) -> Seq<(NarrativeLineKind, Seq<char>)> {
    if content.has_menu(menu_id) {
        seq![(NarrativeLineKind::Narration, story_text(content.spec_menu(menu_id).selection_confirmation@, state))]
    } else {
        Seq::empty()
    }
}

/// Whether `after` is `before` once a pick is recorded (see
/// `apply_menu_choice`): the menu closes, and when the pack has it the pick
/// is written to the story variables and no picks stay pending.
pub open spec fn menu_choice_recorded(content: &ContentPack, before: &WorldState, after: &WorldState, menu_id: Seq<char>,
    option_id: Seq<char>, title: Seq<char>) -> bool {
    &&& after.wf()
    &&& after.active_menu_id is None
    &&& !content.has_menu(menu_id) ==> *after == (WorldState { active_menu_id: None, ..*before })
    &&& content.has_menu(menu_id) ==> {
        let menu = content.spec_menu(menu_id);
        let vals = if confirms_multi(menu, option_id) {
            multi_choice_vars(before.story_vars.vals(), menu, strs(before.pending_menu_selections@))
        } else {
            single_choice_vars(before.story_vars.vals(), menu, option_id, title)
        };
        &&& *after == (WorldState { active_menu_id: None, story_vars: after.story_vars,
            pending_menu_selections: after.pending_menu_selections, ..*before })
        &&& after.pending_menu_selections@.len() == 0
        &&& after.story_vars.decls() == before.story_vars.decls()
        &&& after.story_vars.vals() == vals
    }
}

/// Whether a pick made in a menu led from `before` to `after`, with the lines
/// going from `lines_before` to `lines_after`: the pick is recorded (giving
/// `mid` and the confirmation line), then the stages hear
/// `menu_selected:<menu>` and their messages follow as narration.
pub open spec fn choice_then_signal(content: &ContentPack, before: &WorldState, mid: WorldState, after: &WorldState,
    menu_id: Seq<char>, option_id: Seq<char>, title: Seq<char>, adv: Seq<bool>,
    lines_before: Seq<(NarrativeLineKind, Seq<char>)>, lines_after: Seq<(NarrativeLineKind, Seq<char>)>) -> bool {
    let told = lines_before + choice_lines(content, &mid, menu_id);
    &&& menu_choice_recorded(content, before, &mid, menu_id, option_id, title)
    &&& only_story_fields_changed(&mid, after)
    &&& lines_after.len() >= told.len()
    &&& lines_after.take(told.len() as int) == told
    &&& forall|i: int| told.len() <= i < lines_after.len() ==> (#[trigger] lines_after[i]).0 == NarrativeLineKind::Narration
    &&& advance_outcome(&mid, after, content, "menu_selected:"@ + menu_id, adv, (lines_after.len() - told.len()) as nat)
}

/// A pick is made in a menu (see `apply_menu_choice`), and the stages hear
/// that the menu was answered.
pub fn handle_menu_choice_made(state: &mut WorldState, content: &ContentPack, menu_id: &str, option_id: &str, title: &str,
    lines: &mut NarrativeLines)
    requires
        old(state).wf(),
        content.wf(),
        signal_headroom(old(state), content, 1),
    ensures
        final(state).wf(),
        exists|mid: WorldState, adv: Seq<bool>| #[trigger] choice_then_signal(content, old(state), mid, final(state), menu_id@,
            option_id@, title@, adv, old(lines).views(), final(lines).views()),
{
    apply_menu_choice(state, content, menu_id, option_id, title, lines);
    let ghost mid = *state;
    let ghost told = lines.views();
    proof {
        assert(told =~= old(lines).views() + choice_lines(content, &mid, menu_id@));
        crate::reducer::beat_advance::lemma_room_fewer(state.current_time_minutes as int, state.stages_completed as int,
            state.active_objective_stage_ids.len() as int, crate::reducer::beat_advance::max_next_len(content.beats.stages@) as int,
            crate::reducer::beat_advance::max_elapsed(content.beats.stages@) as int, 1, 1);
    }
    let signal = menu_signal("menu_selected:", menu_id);
    let messages = advance_objective_for_signal(state, content, signal.as_str());
    let ghost count = messages@.len();
    lines.extend_narration(messages);
    proof {
        let adv = choose|adv: Seq<bool>| advance_outcome(&mid, &*state, content, signal@, adv, count);
        assert(lines.views().take(told.len() as int) =~= told);
        assert forall|i: int| told.len() <= i < lines.views().len() implies (#[trigger] lines.views()[i]).0 == NarrativeLineKind::Narration by {
            assert(lines.0@[told.len() + (i - told.len())].kind == NarrativeLineKind::Narration);
        }
        assert(choice_then_signal(content, old(state), mid, &*state, menu_id@, option_id@, title@, adv, old(lines).views(), lines.views()));
    }
}

/// The pending picks after toggling `option_id` in a menu that takes at most
/// `max` picks (no limit when zero): a pick is added once, unless the limit
/// is reached; an unpick drops every copy.
pub open spec fn toggled(pending: Seq<Seq<char>>, option_id: Seq<char>, selected: bool, max: usize) -> Seq<Seq<char>> {
    if selected {
        if (max > 0 && pending.len() >= max) || pending.contains(option_id) {
            pending
        } else {
            pending.push(option_id)
        }
    } else {
        pending.filter(other_than(option_id))
    }
}

/// Whether an id differs from the given one.
pub open spec fn other_than(option_id: Seq<char>) -> spec_fn(Seq<char>) -> bool {
    |id: Seq<char>| id != option_id
}

/// Toggles a pending pick in a menu the pack has; nothing else changes.
pub fn handle_menu_selection_toggled(state: &mut WorldState, content: &ContentPack, menu_id: &str, option_id: &str, selected: bool)
    requires
        old(state).wf(),
    ensures
        final(state).wf(),
        *final(state) == (WorldState { pending_menu_selections: final(state).pending_menu_selections, ..*old(state) }),
        strs(final(state).pending_menu_selections@) == if content.has_menu(menu_id@) {
            toggled(strs(old(state).pending_menu_selections@), option_id@, selected, content.spec_menu(menu_id@).max_selections)
        } else {
            strs(old(state).pending_menu_selections@)
        },
{
    let menu = match content.menu(menu_id) {
        Some(m) => m,
        None => return,
    };
    let max = menu.max_selections;
    let ghost pending = strs(state.pending_menu_selections@);
    if selected {
        if max > 0 && state.pending_menu_selections.len() >= max {
            return;
        }
        let mut i: usize = 0;
        while i < state.pending_menu_selections.len()
            invariant
                i <= state.pending_menu_selections.len(),
                *state == *old(state),
                state.wf(),
                selected,
                content.has_menu(menu_id@),
                max == content.spec_menu(menu_id@).max_selections,
                !(max > 0 && state.pending_menu_selections.len() >= max),
                pending == strs(old(state).pending_menu_selections@),
                pending == strs(state.pending_menu_selections@),
                forall|j: int| 0 <= j < i ==> pending[j] != option_id@,
            decreases state.pending_menu_selections.len() - i,
        {
            if str_eq(state.pending_menu_selections[i].as_str(), option_id) {
                assert(pending[i as int] == option_id@);
                assert(pending.contains(option_id@));
                return;
            }
            i = i + 1;
        }
        assert(!pending.contains(option_id@));
        let ghost before = state.pending_menu_selections@;
        let added = string_of(option_id);
        state.pending_menu_selections.push(added);
        assert(strs(state.pending_menu_selections@) =~= pending.push(option_id@));
    } else {
        let mut kept: Vec<String> = Vec::new();
        let mut i: usize = 0;
        assert(pending.take(0).filter(other_than(option_id@)) =~= Seq::<Seq<char>>::empty()) by {
            reveal(Seq::filter);
        }
        while i < state.pending_menu_selections.len()
            invariant
                i <= state.pending_menu_selections.len(),
                pending == strs(state.pending_menu_selections@),
                strs(kept@) == pending.take(i as int).filter(other_than(option_id@)),
            decreases state.pending_menu_selections.len() - i,
        {
            let ghost before = kept@;
            proof {
                assert(pending.take(i as int + 1) =~= pending.take(i as int).push(pending[i as int]));
                pending.take(i as int).lemma_filter_push(pending[i as int], other_than(option_id@));
            }
            if !str_eq(state.pending_menu_selections[i].as_str(), option_id) {
                let k = string_of(state.pending_menu_selections[i].as_str());
                kept.push(k);
                assert(strs(kept@) =~= strs(before).push(k@));
            }
            i = i + 1;
        }
        assert(pending.take(i as int) =~= pending);
        state.pending_menu_selections = kept;
    }
}


/// Picking an option that is not pending, while the menu has room for it,
/// and then unpicking it leaves the pending picks as they were.
pub proof fn law_pick_then_unpick_restores(pending: Seq<Seq<char>>, option_id: Seq<char>, max: usize)
    requires
        !pending.contains(option_id),
        max == 0 || pending.len() < max,
    ensures
        toggled(toggled(pending, option_id, true, max), option_id, false, max) == pending,
{
    reveal(Seq::filter);
    pending.lemma_filter_push(option_id, other_than(option_id));
    lemma_filter_keeps_all(pending, option_id);
}

proof fn lemma_filter_keeps_all(pending: Seq<Seq<char>>, option_id: Seq<char>)
    requires
        !pending.contains(option_id),
    ensures
        pending.filter(other_than(option_id)) == pending,
    decreases pending.len(),
{
    reveal(Seq::filter);
    if pending.len() > 0 {
        let rest = pending.drop_last();
        assert(!rest.contains(option_id)) by {
            if rest.contains(option_id) {
                let j = choose|j: int| 0 <= j < rest.len() && rest[j] == option_id;
                assert(pending[j] == option_id);
            }
        }
        lemma_filter_keeps_all(rest, option_id);
        assert(pending.last() != option_id) by {
            if pending.last() == option_id {
                assert(pending[pending.len() - 1] == option_id);
            }
        }
        assert(rest.push(pending.last()) =~= pending);
    }
}

/// Toggling never takes the pending picks past a menu's limit.
pub proof fn law_picks_stay_within_the_limit(pending: Seq<Seq<char>>, option_id: Seq<char>, selected: bool, max: usize)
    requires
        max > 0,
        pending.len() <= max,
    ensures
        toggled(pending, option_id, selected, max).len() <= max,
{
    if !selected {
        pending.lemma_filter_len(other_than(option_id));
    }
}

} // verus!

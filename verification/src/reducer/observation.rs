use vstd::prelude::*;
use crate::content::{ActorDefinition, ContentPack, RoomDefinition, RoomDescriptionOverride};
use crate::narrative::{NarrativeLineKind, NarrativeLines};
use crate::smap::StrMap;
use crate::state::{ActorStance, WorldState};
use crate::state::appointments::{display_actor_name, spec_display_actor_name};
use crate::text::{append_chars, chars_eq, chars_of, fill_template, i64_chars, int_text, is_blank, lemma_map_values_push,
    nat_text, replace_all, replace_all_chars, string_from_chars, string_of, text_is_blank, u64_chars};
use crate::turn_policies::{spec_story_var_is_truthy, story_var_is_truthy};
use crate::variable_store::render_steps;
use super::beat_advance::{find_stage, is_first_stage, stage_def, has_stage, lemma_stage_def};
use super::summaries::join_with;

verus! {

/// The placeholder that stands for an actor's stat: `{actor.<id>.<stat>}`.
pub open spec fn stat_placeholder(actor_id: Seq<char>, stat_key: Seq<char>) -> Seq<char> {
    "{actor."@ + actor_id + "."@ + stat_key + "}"@
}

/// `t` with the placeholders of the first `m` of one actor's stats replaced
/// by their values, in key order.
pub open spec fn replace_actor_stat_values(t: Seq<char>, actor_id: Seq<char>, keys: Seq<Seq<char>>, vals: Seq<i32>, m: int) -> Seq<char>
    decreases m,
{
    if m <= 0 {
        t
    } else {
        replace_all(replace_actor_stat_values(t, actor_id, keys, vals, m - 1), stat_placeholder(actor_id, keys[m - 1]), int_text(vals[m - 1] as int))
    }
}

/// `t` with the stat placeholders of the first `n` actors replaced, actors
/// and stats taken in key order.
pub open spec fn replace_all_stat_values(t: Seq<char>, ids: Seq<Seq<char>>, stats: Seq<StrMap<i32>>, n: int) -> Seq<char>
    decreases n,
{
    if n <= 0 {
        t
    } else {
        let prev = replace_all_stat_values(t, ids, stats, n - 1);
        replace_actor_stat_values(prev, ids[n - 1], stats[n - 1].key_seq(), stats[n - 1].val_seq(), stats[n - 1].key_seq().len() as int)
    }
}

/// A story text as the world renders it: story variables substituted, then
/// every actor stat placeholder.
pub open spec fn story_text(template: Seq<char>, state: &WorldState) -> Seq<char> {
    let vars = render_steps(template, state.story_vars.val_keys(), state.story_vars.val_texts(), state.story_vars.val_keys().len());
    replace_all_stat_values(vars, state.actor_stats.key_seq(), state.actor_stats.val_seq(), state.actor_stats.key_seq().len() as int)
}

/// Replaces every stat placeholder in `text` with the stat's value.
pub fn replace_stat_placeholders(text: Vec<char>, stats: &StrMap<StrMap<i32>>) -> (r: Vec<char>)
    requires
        stats.wf(),
        forall|k: Seq<char>| #[trigger] stats@.dom().contains(k) ==> stats@[k].wf(),
    ensures
        r@ == replace_all_stat_values(text@, stats.key_seq(), stats.val_seq(), stats.key_seq().len() as int),
{
    let mut rendered = text;
    let n = stats.len();
    let mut i: usize = 0;
    while i < n
        invariant
            stats.wf(),
            forall|k: Seq<char>| #[trigger] stats@.dom().contains(k) ==> stats@[k].wf(),
            n == stats.key_seq().len(),
            i <= n,
            rendered@ == replace_all_stat_values(text@, stats.key_seq(), stats.val_seq(), i as int),
        decreases n - i,
    {
        let actor_id = stats.key_at(i);
        let actor_stats = stats.value_at(i);
        proof { stats.lemma_contents(); }
        assert(stats@.dom().contains(stats.key_seq()[i as int]));
        let m = actor_stats.len();
        let ghost base = rendered@;
        let mut j: usize = 0;
        while j < m
            invariant
                actor_stats.wf(),
                m == actor_stats.key_seq().len(),
                j <= m,
                rendered@ == replace_actor_stat_values(base, actor_id@, actor_stats.key_seq(), actor_stats.val_seq(), j as int),
            decreases m - j,
        {
            let key = actor_stats.key_at(j);
            let value = actor_stats.value_at(j);
            let mut pattern = chars_of("{actor.");
            append_chars(&mut pattern, actor_id);
            append_chars(&mut pattern, &chars_of("."));
            append_chars(&mut pattern, key);
            append_chars(&mut pattern, &chars_of("}"));
            assert(pattern@ =~= stat_placeholder(actor_id@, key@));
            proof { reveal_strlit("{actor."); }
            rendered = replace_all_chars(&rendered, &pattern, &i64_chars(*value as i64));
            j = j + 1;
        }
        i = i + 1;
    }
    rendered
}

/// A story text with its story variables and actor stat placeholders
/// filled in from the world.
pub fn render_story_text(template: &str, state: &WorldState) -> (r: String)
    requires
        state.wf(),
    ensures
        r@ == story_text(template@, state),
{
    let vars = state.story_vars.render_template(template);
    let r = replace_stat_placeholders(chars_of(vars.as_str()), &state.actor_stats);
    string_from_chars(&r)
}


/// How much of a room an observation shows.
#[derive(Clone, Copy, Debug, PartialEq, Eq, Structural)]
pub enum ObservationMode {
    Summary,
    Detailed,
}

/// Whether an actor is standing in a room and has not fallen.
pub open spec fn present_in_room(content: &ContentPack, state: &WorldState, actor: ActorDefinition, room_id: Seq<char>) -> bool {
    !state.spec_actor_is_defeated(actor.id@, content.settings.combat.health_stat_id@)
        && state.spec_actor_room_id(actor.id@, actor.room_id@) == room_id
}

/// The actors among the first `n` of the pack that are present in a room,
/// in pack order.
pub open spec fn present_actors(content: &ContentPack, state: &WorldState, room_id: Seq<char>, n: int) -> Seq<ActorDefinition>
    decreases n,
{
    if n <= 0 {
        Seq::empty()
    } else {
        let prev = present_actors(content, state, room_id, n - 1);
        let a = content.actors@[n - 1];
        if present_in_room(content, state, a, room_id) { prev.push(a) } else { prev }
    }
}

pub fn actors_in_room<'a>(content: &'a ContentPack, state: &WorldState, room_id: &str) -> (r: Vec<&'a ActorDefinition>)
    requires
        state.wf(),
    ensures
        r@.map_values(|a: &ActorDefinition| *a) == present_actors(content, state, room_id@, content.actors.len() as int),
{
    let mut out: Vec<&'a ActorDefinition> = Vec::new();
    let mut i: usize = 0;
    while i < content.actors.len()
        invariant
            state.wf(),
            i <= content.actors.len(),
            out@.map_values(|a: &ActorDefinition| *a) == present_actors(content, state, room_id@, i as int),
        decreases content.actors.len() - i,
    {
        let actor = &content.actors[i];
        if !state.actor_is_defeated(actor.id.as_str(), content.settings.combat.health_stat_id.as_str())
            && crate::text::str_eq(state.actor_room_id(actor.id.as_str(), actor.room_id.as_str()), room_id) {
            let ghost before = out@;
            out.push(actor);
            proof { lemma_map_values_push(before, actor, |a: &ActorDefinition| *a); }
        }
        i = i + 1;
    }
    out
}

/// The distinct names among the first `n`, in the order first seen.
pub open spec fn distinct_names(names: Seq<Seq<char>>, n: int) -> Seq<Seq<char>>
    decreases n,
{
    if n <= 0 {
        Seq::empty()
    } else {
        let prev = distinct_names(names, n - 1);
        if prev.contains(names[n - 1]) { prev } else { prev.push(names[n - 1]) }
    }
}

/// A name as grouped: bare once, otherwise with `×` and its count.
pub open spec fn grouped_label(name: Seq<char>, count: nat) -> Seq<char> {
    if count > 1 { name + " ×"@ + nat_text(count) } else { name }
}

/// Repeated names collapsed into one each, in the order first seen, with
/// their counts.
pub open spec fn grouped_names(names: Seq<Seq<char>>) -> Seq<Seq<char>> {
    distinct_names(names, names.len() as int).map_values(|x: Seq<char>| grouped_label(x, super::summaries::occurrences(names, x)))
}

proof fn lemma_occurrences_take(names: Seq<Seq<char>>, i: int, x: Seq<char>)
    requires
        0 <= i < names.len(),
    ensures
        super::summaries::occurrences(names.take(i + 1), x) == super::summaries::occurrences(names.take(i), x)
            + if names[i] == x { 1nat } else { 0nat },
{
    assert(names.take(i + 1).drop_last() =~= names.take(i));
}

proof fn lemma_distinct_take(names: Seq<Seq<char>>, n: int)
    requires
        0 <= n <= names.len(),
    ensures
        distinct_names(names.take(n), n) == distinct_names(names, n),
    decreases n,
{
    if n > 0 {
        lemma_distinct_take(names, n - 1);
        assert(names.take(n).take(n - 1) =~= names.take(n - 1));
        lemma_distinct_prefix(names.take(n), names, n - 1);
    }
}

proof fn lemma_distinct_prefix(a: Seq<Seq<char>>, b: Seq<Seq<char>>, n: int)
    requires
        0 <= n <= a.len(),
        n <= b.len(),
        forall|i: int| 0 <= i < n ==> a[i] == b[i],
    ensures
        distinct_names(a, n) == distinct_names(b, n),
    decreases n,
{
    if n > 0 {
        lemma_distinct_prefix(a, b, n - 1);
    }
}

/// Collapses repeated names, keeping the order first seen and suffixing a
/// repeated name with its count.
pub fn group_duplicate_names(names: &Vec<String>) -> (r: Vec<String>)
    ensures
        r@.map_values(|s: String| s@) == grouped_names(names@.map_values(|s: String| s@)),
{
    let ghost nv = names@.map_values(|s: String| s@);
    let mut grouped: Vec<(String, usize)> = Vec::new();
    let mut i: usize = 0;
    while i < names.len()
        invariant
            i <= names.len(),
            nv == names@.map_values(|s: String| s@),
            grouped@.map_values(|e: (String, usize)| e.0@) == distinct_names(nv, i as int),
            forall|k: int| 0 <= k < grouped.len() ==>
                #[trigger] grouped@[k].1 as nat == super::summaries::occurrences(nv.take(i as int), grouped@[k].0@),
            forall|k: int| 0 <= k < grouped.len() ==> grouped@[k].1 <= i,
            forall|a: int, b: int| 0 <= a < b < grouped.len() ==> #[trigger] grouped@[a].0@ != #[trigger] grouped@[b].0@,
        decreases names.len() - i,
    {
        let name = &names[i];
        let target = chars_of(name.as_str());
        let mut k: usize = 0;
        while k < grouped.len() && !chars_eq(&chars_of(grouped[k].0.as_str()), &target)
            invariant
                k <= grouped.len(),
                target@ == name@,
                forall|q: int| 0 <= q < k ==> grouped@[q].0@ != name@,
            decreases grouped.len() - k,
        {
            k = k + 1;
        }
        let found = k < grouped.len();
        proof {
            assert(nv[i as int] == name@);
            assert forall|x: Seq<char>| true implies super::summaries::occurrences(nv.take(i + 1), x)
                == super::summaries::occurrences(nv.take(i as int), x) + if nv[i as int] == x { 1nat } else { 0nat } by {
                lemma_occurrences_take(nv, i as int, x);
            }
        }
        if found {
            let ghost before = grouped@;
            let entry = grouped[k].1 + 1;
            let label = grouped[k].0.clone();
            grouped.set(k, (label, entry));
            proof {
                assert(distinct_names(nv, i as int).contains(name@)) by {
                    assert(before.map_values(|e: (String, usize)| e.0@)[k as int] == name@);
                }
                assert(grouped@.map_values(|e: (String, usize)| e.0@) =~= before.map_values(|e: (String, usize)| e.0@));
                assert forall|q: int| 0 <= q < grouped.len() implies
                    #[trigger] grouped@[q].1 as nat == super::summaries::occurrences(nv.take(i + 1), grouped@[q].0@) by {
                    lemma_occurrences_take(nv, i as int, grouped@[q].0@);
                    if q != k {
                        assert(before[q].0@ != before[k as int].0@);
                    }
                }
            }
        } else {
            let ghost before = grouped@;
            proof {
                assert(!distinct_names(nv, i as int).contains(name@)) by {
                    if distinct_names(nv, i as int).contains(name@) {
                        let q = choose|q: int| 0 <= q < distinct_names(nv, i as int).len() && distinct_names(nv, i as int)[q] == name@;
                        assert(before.map_values(|e: (String, usize)| e.0@)[q] == name@);
                    }
                }
                assert(super::summaries::occurrences(nv.take(i as int), name@) == 0) by {
                    lemma_occ_zero(nv.take(i as int), distinct_names(nv, i as int), name@, i as int, nv);
                }
            }
            let copy = name.clone();
            grouped.push((copy, 1));
            proof {
                lemma_map_values_push(before, (copy, 1usize), |e: (String, usize)| e.0@);
                assert forall|q: int| 0 <= q < grouped.len() implies
                    #[trigger] grouped@[q].1 as nat == super::summaries::occurrences(nv.take(i + 1), grouped@[q].0@) by {
                    lemma_occurrences_take(nv, i as int, grouped@[q].0@);
                }
            }
        }
        i = i + 1;
    }
    proof {
        assert(nv.take(names.len() as int) =~= nv);
    }
    let mut out: Vec<String> = Vec::new();
    let mut q: usize = 0;
    while q < grouped.len()
        invariant
            q <= grouped.len(),
            nv == names@.map_values(|s: String| s@),
            grouped@.map_values(|e: (String, usize)| e.0@) == distinct_names(nv, nv.len() as int),
            forall|k: int| 0 <= k < grouped.len() ==>
                #[trigger] grouped@[k].1 as nat == super::summaries::occurrences(nv, grouped@[k].0@),
            out@.map_values(|s: String| s@) == distinct_names(nv, nv.len() as int).take(q as int)
                .map_values(|x: Seq<char>| grouped_label(x, super::summaries::occurrences(nv, x))),
        decreases grouped.len() - q,
    {
        let (name, count) = &grouped[q];
        let label = if *count > 1 {
            let mut t = chars_of(name.as_str());
            append_chars(&mut t, &chars_of(" ×"));
            append_chars(&mut t, &u64_chars(*count as u64));
            string_from_chars(&t)
        } else {
            name.clone()
        };
        let ghost before = out@;
        out.push(label);
        proof {
            lemma_map_values_push(before, label, |s: String| s@);
            assert(grouped@.map_values(|e: (String, usize)| e.0@)[q as int] == name@);
            assert(out@.map_values(|s: String| s@) =~= distinct_names(nv, nv.len() as int).take(q + 1)
                .map_values(|x: Seq<char>| grouped_label(x, super::summaries::occurrences(nv, x))));
        }
        q = q + 1;
    }
    proof {
        assert(distinct_names(nv, nv.len() as int).take(grouped.len() as int) =~= distinct_names(nv, nv.len() as int));
    }
    out
}

proof fn lemma_occ_zero(prefix: Seq<Seq<char>>, seen: Seq<Seq<char>>, x: Seq<char>, i: int, nv: Seq<Seq<char>>)
    requires
        0 <= i <= nv.len(),
        prefix == nv.take(i),
        seen == distinct_names(nv, i),
        !seen.contains(x),
    ensures
        super::summaries::occurrences(prefix, x) == 0,
    decreases i,
{
    if i > 0 {
        let prev = distinct_names(nv, i - 1);
        assert(!prev.contains(x)) by {
            if prev.contains(x) {
                let q = choose|q: int| 0 <= q < prev.len() && prev[q] == x;
                if !prev.contains(nv[i - 1]) {
                    assert(seen[q] == x);
                }
            }
        }
        assert(nv[i - 1] != x) by {
            if nv[i - 1] == x {
                if prev.contains(nv[i - 1]) {
                } else {
                    assert(seen[prev.len() as int] == x);
                }
            }
        }
        lemma_occ_zero(nv.take(i - 1), prev, x, i - 1, nv);
        lemma_occurrences_take(nv, i - 1, x);
    }
}

/// Joins texts with a separator.
pub fn join_texts(items: &Vec<String>, sep: &str) -> (r: String)
    ensures
        r@ == join_with(items@.map_values(|s: String| s@), sep@),
{
    let ghost iv = items@.map_values(|s: String| s@);
    let mut out: Vec<char> = Vec::new();
    let sep_chars = chars_of(sep);
    let mut i: usize = 0;
    while i < items.len()
        invariant
            i <= items.len(),
            sep_chars@ == sep@,
            iv == items@.map_values(|s: String| s@),
            out@ == join_with(iv.take(i as int), sep@),
        decreases items.len() - i,
    {
        assert(iv.take(i + 1).drop_last() =~= iv.take(i as int));
        if i > 0 {
            append_chars(&mut out, &sep_chars);
        }
        append_chars(&mut out, &chars_of(items[i].as_str()));
        proof {
            if i == 0 {
                assert(out@ =~= iv.take(1)[0]);
            }
        }
        i = i + 1;
    }
    assert(iv.take(items.len() as int) =~= iv);
    string_from_chars(&out)
}


/// A template with one placeholder filled in.
pub open spec fn fill_one(template: Seq<char>, name: Seq<char>, value: Seq<char>) -> Seq<char> {
    fill_template(template, seq![(name, value)], 1)
}

fn render_one(template: &str, name: &str, value: &str) -> (r: String)
    ensures
        r@ == fill_one(template@, name@, value@),
{
    let pairs: [(&str, &str); 1] = [(name, value)];
    let r = crate::text::fill_placeholders(template, &pairs);
    assert(crate::text::pair_views(pairs@) =~= seq![(name@, value@)]);
    r
}

/// The summary of the first active stage, rendered, as the objective line.
pub open spec fn objective_text(content: &ContentPack, state: &WorldState) -> Seq<char> {
    let ids = state.active_objective_stage_ids@;
    let stages = content.beats.stages@;
    let summary = if ids.len() > 0 && has_stage(stages, ids[0]@) {
        story_text(stage_def(stages, ids[0]@).summary@, state)
    } else {
        Seq::empty()
    };
    if summary.len() == 0 { Seq::empty() } else { fill_one(content.presentation.presentation_text.objective@, "objective"@, summary) }
}

pub fn render_objective(content: &ContentPack, state: &WorldState) -> (r: String)
    requires
        state.wf(),
    ensures
        r@ == objective_text(content, state),
{
    let summary = if state.active_objective_stage_ids.len() > 0 {
        let id = &state.active_objective_stage_ids[0];
        match find_stage(content.beats.stages.as_slice(), id.as_str()) {
            Some(k) => {
                proof { lemma_stage_def(content.beats.stages@, id@, k as int); }
                render_story_text(content.beats.stages[k].summary.as_str(), state)
            },
            None => String::new(),
        }
    } else {
        String::new()
    };
    if chars_of(summary.as_str()).len() == 0 {
        String::new()
    } else {
        render_one(content.presentation.presentation_text.objective.as_str(), "objective", summary.as_str())
    }
}

/// Whether a description override is in force: it names no actor, or its
/// actor has fallen.
pub open spec fn override_applies(state: &WorldState, health: Seq<char>, d: RoomDescriptionOverride) -> bool {
    d.actor_defeated@.len() == 0 || state.spec_actor_is_defeated(d.actor_defeated@, health)
}

/// The first override in force from position `i` on.
pub open spec fn active_override_from(descs: Seq<RoomDescriptionOverride>, state: &WorldState, health: Seq<char>, i: int)
    -> Option<RoomDescriptionOverride>
    decreases descs.len() - i,
{
    if i < 0 || i >= descs.len() {
        None
    } else if override_applies(state, health, descs[i]) {
        Some(descs[i])
    } else {
        active_override_from(descs, state, health, i + 1)
    }
}

/// The room's description for the mode: from the override in force, if any.
pub open spec fn room_body(content: &ContentPack, state: &WorldState, room: RoomDefinition, mode: ObservationMode) -> Seq<char> {
    match (active_override_from(room.descriptions@, state, content.settings.combat.health_stat_id@, 0), mode) {
        (Some(o), ObservationMode::Summary) => o.summary@,
        (Some(o), ObservationMode::Detailed) => o.inspect_text@,
        (None, ObservationMode::Summary) => room.summary@,
        (None, ObservationMode::Detailed) => room.inspect_text@,
    }
}

/// The line listing a room's features; empty when it has none.
pub open spec fn features_text(content: &ContentPack, room: RoomDefinition) -> Seq<char> {
    if room.features.len() == 0 {
        Seq::empty()
    } else {
        fill_one(content.presentation.presentation_text.features@, "features"@,
            join_with(room.features@.map_values(|f: crate::content::RoomFeatureDefinition| f.label@), ", "@))
    }
}

/// The suffix that marks an actor's stance toward the player.
pub open spec fn stance_suffix(content: &ContentPack, stance: ActorStance) -> Seq<char> {
    match stance {
        ActorStance::Allied => content.presentation.presentation_text.ally_suffix@,
        ActorStance::Hostile => content.presentation.presentation_text.hostile_suffix@,
        ActorStance::Neutral => Seq::empty(),
    }
}

/// How a present actor is listed: its shown name and stance suffix.
pub open spec fn present_label(content: &ContentPack, state: &WorldState, a: ActorDefinition) -> Seq<char> {
    spec_display_actor_name(state, &a) + stance_suffix(content, state.spec_relationship(a.id@).stance)
}

/// The line listing who is in the room; empty when nobody is.
pub open spec fn people_text(content: &ContentPack, state: &WorldState, room_id: Seq<char>) -> Seq<char> {
    let present = present_actors(content, state, room_id, content.actors.len() as int)
        .map_values(|a: ActorDefinition| present_label(content, state, a));
    if present.len() == 0 {
        Seq::empty()
    } else {
        fill_one(content.presentation.presentation_text.people@, "people"@, join_with(grouped_names(present), ", "@))
    }
}

/// The labels of the first `n` exits that show: those that need no story
/// variable, or whose variable is truthy.
pub open spec fn visible_exit_labels(state: &WorldState, exits: Seq<crate::content::RoomExitDefinition>, n: int) -> Seq<Seq<char>>
    decreases n,
{
    if n <= 0 {
        Seq::empty()
    } else {
        let prev = visible_exit_labels(state, exits, n - 1);
        let e = exits[n - 1];
        if e.requires_story_var@.len() == 0 || spec_story_var_is_truthy(state, e.requires_story_var@) { prev.push(e.label@) } else { prev }
    }
}

/// The line listing the exits that show; empty when none does.
pub open spec fn exits_text(content: &ContentPack, state: &WorldState, room: RoomDefinition) -> Seq<char> {
    let visible = visible_exit_labels(state, room.exits@, room.exits.len() as int);
    if visible.len() == 0 {
        Seq::empty()
    } else {
        fill_one(content.presentation.presentation_text.exits@, "exits"@, join_with(visible, ", "@))
    }
}

/// Whether a loose item reads as part of the room.
pub open spec fn is_described(content: &ContentPack, id: Seq<char>) -> bool {
    content.has_item(id) && content.spec_item(id).look_description@.len() > 0
}

/// The room-reading descriptions of the first `n` loose items.
pub open spec fn described_items(content: &ContentPack, loose: Seq<(Seq<char>, u32)>, n: int) -> Seq<Seq<char>>
    decreases n,
{
    if n <= 0 {
        Seq::empty()
    } else {
        let prev = described_items(content, loose, n - 1);
        let id = loose[n - 1].0;
        if is_described(content, id) { prev.push(content.spec_item(id).look_description@) } else { prev }
    }
}

/// How a loose item is listed: its label (or id), with `×` and the count when
/// there are several.
pub open spec fn loose_label(content: &ContentPack, id: Seq<char>, count: u32) -> Seq<char> {
    let label = if content.has_item(id) { content.spec_item(id).label@ } else { id };
    if count > 1 { label + " ×"@ + nat_text(count as nat) } else { label }
}

/// The listings of the first `n` loose items that do not read as part of
/// the room.
pub open spec fn plain_items(content: &ContentPack, loose: Seq<(Seq<char>, u32)>, n: int) -> Seq<Seq<char>>
    decreases n,
{
    if n <= 0 {
        Seq::empty()
    } else {
        let prev = plain_items(content, loose, n - 1);
        let (id, count) = loose[n - 1];
        if !is_described(content, id) { prev.push(loose_label(content, id, count)) } else { prev }
    }
}

/// What the loose items add to a room's text: their descriptions as a
/// paragraph, then the line listing the rest.
pub open spec fn items_text(content: &ContentPack, loose: Seq<(Seq<char>, u32)>) -> Seq<char> {
    let described = described_items(content, loose, loose.len() as int);
    let plain = plain_items(content, loose, loose.len() as int);
    (if described.len() > 0 { "\n\n"@ + join_with(described, " "@) } else { Seq::empty() })
        + (if plain.len() > 0 {
            fill_one(content.presentation.presentation_text.loose_items@, "items"@, join_with(plain, ", "@))
        } else {
            Seq::empty()
        })
}

/// The loose items lying in a room, as listed by the world.
pub open spec fn loose_view(state: &WorldState, room_id: Seq<char>) -> Seq<(Seq<char>, u32)> {
    crate::state::inventory::loose_items_upto(state.room_item_stock.key_seq(), state.room_item_stock.val_seq(),
        room_id + crate::text::key_sep(), state.room_item_stock.key_seq().len() as int)
}

/// The body of a room observation: the pack's template with the room's
/// description, features, items, people, exits and objective filled in.
pub open spec fn observation_text(content: &ContentPack, state: &WorldState, room_id: Seq<char>, mode: ObservationMode) -> Seq<char> {
    let room = content.spec_room(room_id);
    fill_template(content.presentation.presentation_text.room_observation@, seq![
        ("body"@, room_body(content, state, room, mode)),
        ("features"@, features_text(content, room)),
        ("items"@, items_text(content, loose_view(state, room_id))),
        ("people"@, people_text(content, state, room_id)),
        ("exits"@, exits_text(content, state, room)),
        ("objective"@, objective_text(content, state)),
    ], 6)
}

/// The lines of a room observation: the room's title as a heading, then the
/// body unless it is blank.
pub open spec fn observation_lines(content: &ContentPack, state: &WorldState, room_id: Seq<char>, mode: ObservationMode)
    -> Seq<(NarrativeLineKind, Seq<char>)> {
    let text = observation_text(content, state, room_id, mode);
    seq![(NarrativeLineKind::Heading, "== "@ + content.spec_room(room_id).title@ + " =="@)]
        + if is_blank(text) { Seq::empty() } else { seq![(NarrativeLineKind::Narration, text)] }
}

fn room_body_of(content: &ContentPack, state: &WorldState, room: &RoomDefinition, mode: ObservationMode) -> (r: String)
    requires
        state.wf(),
    ensures
        r@ == room_body(content, state, *room, mode),
{
    let health = content.settings.combat.health_stat_id.as_str();
    let mut i: usize = 0;
    while i < room.descriptions.len()
        && !(chars_of(room.descriptions[i].actor_defeated.as_str()).len() == 0
            || state.actor_is_defeated(room.descriptions[i].actor_defeated.as_str(), health))
        invariant
            state.wf(),
            i <= room.descriptions.len(),
            active_override_from(room.descriptions@, state, health@, 0) == active_override_from(room.descriptions@, state, health@, i as int),
        decreases room.descriptions.len() - i,
    {
        i = i + 1;
    }
    if i < room.descriptions.len() {
        let o = &room.descriptions[i];
        match mode {
            ObservationMode::Summary => string_of(o.summary.as_str()),
            ObservationMode::Detailed => string_of(o.inspect_text.as_str()),
        }
    } else {
        match mode {
            ObservationMode::Summary => string_of(room.summary.as_str()),
            ObservationMode::Detailed => string_of(room.inspect_text.as_str()),
        }
    }
}

fn features_of(content: &ContentPack, room: &RoomDefinition) -> (r: String)
    ensures
        r@ == features_text(content, *room),
{
    if room.features.len() == 0 {
        return String::new();
    }
    let mut labels: Vec<String> = Vec::new();
    let mut i: usize = 0;
    while i < room.features.len()
        invariant
            i <= room.features.len(),
            labels@.map_values(|s: String| s@) == room.features@.take(i as int).map_values(|f: crate::content::RoomFeatureDefinition| f.label@),
        decreases room.features.len() - i,
    {
        let ghost before = labels@;
        let l = string_of(room.features[i].label.as_str());
        labels.push(l);
        proof {
            lemma_map_values_push(before, l, |s: String| s@);
            assert(labels@.map_values(|s: String| s@) =~= room.features@.take(i + 1).map_values(|f: crate::content::RoomFeatureDefinition| f.label@));
        }
        i = i + 1;
    }
    assert(room.features@.take(room.features.len() as int) =~= room.features@);
    let joined = join_texts(&labels, ", ");
    render_one(content.presentation.presentation_text.features.as_str(), "features", joined.as_str())
}

fn stance_suffix_of(content: &ContentPack, stance: ActorStance) -> (r: String)
    ensures
        r@ == stance_suffix(content, stance),
{
    match stance {
        ActorStance::Allied => string_of(content.presentation.presentation_text.ally_suffix.as_str()),
        ActorStance::Hostile => string_of(content.presentation.presentation_text.hostile_suffix.as_str()),
        ActorStance::Neutral => String::new(),
    }
}

fn people_of(content: &ContentPack, state: &WorldState, room_id: &str) -> (r: String)
    requires
        state.wf(),
    ensures
        r@ == people_text(content, state, room_id@),
{
    let actors = actors_in_room(content, state, room_id);
    let ghost pa = present_actors(content, state, room_id@, content.actors.len() as int);
    let mut present: Vec<String> = Vec::new();
    let mut i: usize = 0;
    while i < actors.len()
        invariant
            state.wf(),
            i <= actors.len(),
            actors@.map_values(|a: &ActorDefinition| *a) == pa,
            present@.map_values(|s: String| s@) == pa.take(i as int).map_values(|a: ActorDefinition| present_label(content, state, a)),
        decreases actors.len() - i,
    {
        let actor = actors[i];
        assert(*actor == pa[i as int]);
        let mut t = chars_of(display_actor_name(state, actor).as_str());
        append_chars(&mut t, &chars_of(stance_suffix_of(content, state.stance(actor.id.as_str())).as_str()));
        let label = string_from_chars(&t);
        let ghost before = present@;
        present.push(label);
        proof {
            lemma_map_values_push(before, label, |s: String| s@);
            assert(present@.map_values(|s: String| s@) =~= pa.take(i + 1).map_values(|a: ActorDefinition| present_label(content, state, a)));
        }
        i = i + 1;
    }
    assert(pa.take(actors.len() as int) =~= pa);
    if present.len() == 0 {
        return String::new();
    }
    let grouped = group_duplicate_names(&present);
    let joined = join_texts(&grouped, ", ");
    render_one(content.presentation.presentation_text.people.as_str(), "people", joined.as_str())
}

fn exits_of(content: &ContentPack, state: &WorldState, room: &RoomDefinition) -> (r: String)
    requires
        state.wf(),
    ensures
        r@ == exits_text(content, state, *room),
{
    let mut visible: Vec<String> = Vec::new();
    let mut i: usize = 0;
    while i < room.exits.len()
        invariant
            state.wf(),
            i <= room.exits.len(),
            visible@.map_values(|s: String| s@) == visible_exit_labels(state, room.exits@, i as int),
        decreases room.exits.len() - i,
    {
        let e = &room.exits[i];
        if chars_of(e.requires_story_var.as_str()).len() == 0 || story_var_is_truthy(state, e.requires_story_var.as_str()) {
            let ghost before = visible@;
            let l = string_of(e.label.as_str());
            visible.push(l);
            proof { lemma_map_values_push(before, l, |s: String| s@); }
        }
        i = i + 1;
    }
    if visible.len() == 0 {
        return String::new();
    }
    let joined = join_texts(&visible, ", ");
    render_one(content.presentation.presentation_text.exits.as_str(), "exits", joined.as_str())
}

fn items_of(content: &ContentPack, state: &WorldState, room_id: &str) -> (r: String)
    requires
        state.wf(),
    ensures
        r@ == items_text(content, loose_view(state, room_id@)),
{
    let loose = state.loose_room_items(room_id);
    let ghost lv = loose_view(state, room_id@);
    let mut described: Vec<String> = Vec::new();
    let mut plain: Vec<String> = Vec::new();
    let mut i: usize = 0;
    while i < loose.len()
        invariant
            i <= loose.len(),
            loose@.map_values(|e: (String, u32)| (e.0@, e.1)) == lv,
            described@.map_values(|s: String| s@) == described_items(content, lv, i as int),
            plain@.map_values(|s: String| s@) == plain_items(content, lv, i as int),
        decreases loose.len() - i,
    {
        let (id, count) = &loose[i];
        assert(lv[i as int] == (id@, *count));
        match content.item(id.as_str()) {
            Some(item) => {
                if chars_of(item.look_description.as_str()).len() > 0 {
                    let ghost before = described@;
                    let d = string_of(item.look_description.as_str());
                    described.push(d);
                    proof { lemma_map_values_push(before, d, |s: String| s@); }
                } else {
                    let mut t = chars_of(item.label.as_str());
                    if *count > 1 {
                        append_chars(&mut t, &chars_of(" ×"));
                        append_chars(&mut t, &u64_chars(*count as u64));
                    }
                    let ghost before = plain@;
                    let l = string_from_chars(&t);
                    plain.push(l);
                    proof { lemma_map_values_push(before, l, |s: String| s@); }
                }
            },
            None => {
                let mut t = chars_of(id.as_str());
                if *count > 1 {
                    append_chars(&mut t, &chars_of(" ×"));
                    append_chars(&mut t, &u64_chars(*count as u64));
                }
                let ghost before = plain@;
                let l = string_from_chars(&t);
                plain.push(l);
                proof { lemma_map_values_push(before, l, |s: String| s@); }
            },
        }
        i = i + 1;
    }
    let mut out: Vec<char> = Vec::new();
    if described.len() > 0 {
        out = chars_of("\n\n");
        append_chars(&mut out, &chars_of(join_texts(&described, " ").as_str()));
    }
    if plain.len() > 0 {
        let joined = join_texts(&plain, ", ");
        append_chars(&mut out, &chars_of(render_one(content.presentation.presentation_text.loose_items.as_str(), "items", joined.as_str()).as_str()));
    }
    proof {
        assert(out@ =~= items_text(content, lv));
    }
    string_from_chars(&out)
}

/// What the player sees of a room: its title, then the pack's observation
/// template filled in; `None` for a room the pack does not know.
pub fn render_room_observation(content: &ContentPack, state: &WorldState, room_id: &str, mode: ObservationMode) -> (r: Option<NarrativeLines>)
    requires
        state.wf(),
        content.wf(),
    ensures
        r is Some == content.has_room(room_id@),
        r matches Some(lines) ==> lines.views() == observation_lines(content, state, room_id@, mode),
{
    let room = match content.room(room_id) {
        Some(room) => room,
        None => return None,
    };
    let body = room_body_of(content, state, room, mode);
    let features = features_of(content, room);
    let items = items_of(content, state, room_id);
    let people = people_of(content, state, room_id);
    let exits = exits_of(content, state, room);
    let objective = render_objective(content, state);
    let pairs: [(&str, &str); 6] = [
        ("body", body.as_str()),
        ("features", features.as_str()),
        ("items", items.as_str()),
        ("people", people.as_str()),
        ("exits", exits.as_str()),
        ("objective", objective.as_str()),
    ];
    let body_text = content.render_template(content.presentation.presentation_text.room_observation.as_str(), &pairs);
    proof {
        assert(crate::text::pair_views(pairs@) =~= seq![
            ("body"@, room_body(content, state, *room, mode)),
            ("features"@, features_text(content, *room)),
            ("items"@, items_text(content, loose_view(state, room_id@))),
            ("people"@, people_text(content, state, room_id@)),
            ("exits"@, exits_text(content, state, *room)),
            ("objective"@, objective_text(content, state)),
        ]);
    }
    let mut lines = NarrativeLines::new();
    let mut title = chars_of("== ");
    append_chars(&mut title, &chars_of(room.title.as_str()));
    append_chars(&mut title, &chars_of(" =="));
    lines.heading(string_from_chars(&title));
    if !text_is_blank(body_text.as_str()) {
        lines.narration(body_text);
    }
    proof {
        assert(lines.views() =~= observation_lines(content, state, room_id@, mode));
    }
    Some(lines)
}


/// A room without loose items adds nothing about items to its text.
pub proof fn law_no_loose_items_no_item_text(content: &ContentPack)
    ensures
        items_text(content, Seq::empty()) == Seq::<char>::empty(),
{
    assert(Seq::<char>::empty() + Seq::<char>::empty() =~= Seq::<char>::empty());
}

/// Grouping names keeps one entry per distinct name.
pub proof fn law_grouping_keeps_one_entry_per_name(names: Seq<Seq<char>>)
    ensures
        grouped_names(names).len() == distinct_names(names, names.len() as int).len(),
        forall|x: Seq<char>| names.contains(x) ==> distinct_names(names, names.len() as int).contains(x),
{
    assert forall|x: Seq<char>| names.contains(x) implies distinct_names(names, names.len() as int).contains(x) by {
        let i = choose|i: int| 0 <= i < names.len() && names[i] == x;
        lemma_distinct_contains(names, i, names.len() as int);
    }
}

proof fn lemma_distinct_contains(names: Seq<Seq<char>>, i: int, n: int)
    requires
        0 <= i < n <= names.len(),
    ensures
        distinct_names(names, n).contains(names[i]),
    decreases n,
{
    if i < n - 1 {
        lemma_distinct_contains(names, i, n - 1);
        let prev = distinct_names(names, n - 1);
        if !prev.contains(names[n - 1]) {
            let q = choose|q: int| 0 <= q < prev.len() && prev[q] == names[i];
            assert(prev.push(names[n - 1])[q] == names[i]);
        }
    } else {
        let prev = distinct_names(names, n - 1);
        if !prev.contains(names[n - 1]) {
            assert(prev.push(names[n - 1])[prev.len() as int] == names[n - 1]);
        }
    }
}

/// The index of the first of the first `n` features with the given id, or -1.
pub open spec fn first_feature_index(features: Seq<crate::content::RoomFeatureDefinition>, feature_id: Seq<char>, n: int) -> int
    decreases n,
{
    if n <= 0 {
        -1
    } else {
        let prev = first_feature_index(features, feature_id, n - 1);
        if prev >= 0 { prev } else if features[n - 1].id@ == feature_id { n - 1 } else { -1 }
    }
}

/// A room's feature by id: the first with it, in a known room.
pub open spec fn feature_of(content: &ContentPack, room_id: Seq<char>, feature_id: Seq<char>) -> Option<crate::content::RoomFeatureDefinition> {
    if content.has_room(room_id) {
        let fs = content.spec_room(room_id).features@;
        let i = first_feature_index(fs, feature_id, fs.len() as int);
        if i >= 0 { Some(fs[i]) } else { None }
    } else {
        None
    }
}

proof fn lemma_first_feature_stays(fs: Seq<crate::content::RoomFeatureDefinition>, feature_id: Seq<char>, a: int, b: int)
    requires
        0 <= a <= b,
        first_feature_index(fs, feature_id, a) >= 0,
    ensures
        first_feature_index(fs, feature_id, b) == first_feature_index(fs, feature_id, a),
    decreases b - a,
{
    if a < b {
        lemma_first_feature_stays(fs, feature_id, a, b - 1);
    }
}

/// A room's feature by id.
pub fn find_feature<'a>(content: &'a ContentPack, room_id: &str, feature_id: &str) -> (r: Option<&'a crate::content::RoomFeatureDefinition>)
    ensures
        match r {
            Some(f) => feature_of(content, room_id@, feature_id@) == Some(*f),
            None => feature_of(content, room_id@, feature_id@) is None,
        },
{
    let room = match content.room(room_id) {
        Some(room) => room,
        None => return None,
    };
    let mut i: usize = 0;
    while i < room.features.len()
        invariant
            i <= room.features.len(),
            content.has_room(room_id@),
            *room == content.spec_room(room_id@),
            first_feature_index(room.features@, feature_id@, i as int) == -1,
        decreases room.features.len() - i,
    {
        if crate::text::str_eq(room.features[i].id.as_str(), feature_id) {
            assert(first_feature_index(room.features@, feature_id@, i as int + 1) == i);
            proof { lemma_first_feature_stays(room.features@, feature_id@, i as int + 1, room.features.len() as int); }
            return Some(&room.features[i]);
        }
        i = i + 1;
    }
    None
}

/// Whether a feature's consumable is at hand: it has stock, or one lies
/// loose in the room.
pub open spec fn consumable_at_hand(state: &WorldState, room_id: Seq<char>, feature_id: Seq<char>, c: crate::content::FeatureConsumableDefinition) -> bool {
    crate::state::inventory::count_in(state.feature_consumable_stock@, crate::state::inventory::consumable_key(room_id, feature_id, c.id@)) > 0
        || state.spec_item_count_in_storage(c.id@, crate::content::ItemStorageTarget::CurrentRoom, room_id) > 0
}

/// The labels of the first `n` consumables at hand.
pub open spec fn labels_at_hand(state: &WorldState, room_id: Seq<char>, feature_id: Seq<char>, cs: Seq<crate::content::FeatureConsumableDefinition>, n: int) -> Seq<Seq<char>>
    decreases n,
{
    if n <= 0 {
        Seq::empty()
    } else {
        let prev = labels_at_hand(state, room_id, feature_id, cs, n - 1);
        if consumable_at_hand(state, room_id, feature_id, cs[n - 1]) { prev.push(cs[n - 1].label@) } else { prev }
    }
}

/// The line naming what a feature offers, when any of it is at hand.
pub open spec fn feature_consumables_line(content: &ContentPack, state: &WorldState, room_id: Seq<char>, feature_id: Seq<char>) -> Option<Seq<char>> {
    match feature_of(content, room_id, feature_id) {
        None => None,
        Some(f) => {
            let labels = labels_at_hand(state, room_id, feature_id, f.consumables@, f.consumables.len() as int);
            if labels.len() == 0 {
                None
            } else {
                Some(fill_template(content.presentation.presentation_text.feature_consumables@,
                    seq![("feature_label"@, f.label@), ("items"@, join_with(labels, ", "@))], 2))
            }
        },
    }
}

pub fn render_feature_consumables_line(content: &ContentPack, state: &WorldState, room_id: &str, feature_id: &str) -> (r: Option<String>)
    requires
        state.wf(),
    ensures
        match r {
            Some(t) => feature_consumables_line(content, state, room_id@, feature_id@) == Some(t@),
            None => feature_consumables_line(content, state, room_id@, feature_id@) is None,
        },
{
    let feature = match find_feature(content, room_id, feature_id) {
        Some(f) => f,
        None => return None,
    };
    let mut labels: Vec<String> = Vec::new();
    let mut i: usize = 0;
    while i < feature.consumables.len()
        invariant
            state.wf(),
            i <= feature.consumables.len(),
            labels@.map_values(|s: String| s@) == labels_at_hand(state, room_id@, feature_id@, feature.consumables@, i as int),
        decreases feature.consumables.len() - i,
    {
        let c = &feature.consumables[i];
        if state.remaining_consumable_stock(room_id, feature_id, c.id.as_str()) > 0
            || state.has_item_in_storage(c.id.as_str(), crate::content::ItemStorageTarget::CurrentRoom, room_id) {
            let ghost before = labels@;
            labels.push(c.label.clone());
            proof { lemma_map_values_push(before, c.label, |s: String| s@); }
        }
        i = i + 1;
    }
    if labels.len() == 0 {
        return None;
    }
    let items = join_texts(&labels, ", ");
    let pairs: Vec<(&str, &str)> = vec![("feature_label", feature.label.as_str()), ("items", items.as_str())];
    assert(crate::text::pair_views(pairs@) =~= seq![("feature_label"@, feature.label@), ("items"@, items@)]);
    Some(content.render_template(content.presentation.presentation_text.feature_consumables.as_str(), pairs.as_slice()))
}

} // verus!

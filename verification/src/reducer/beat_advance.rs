use vstd::prelude::*;
use crate::content::{AdvanceCondition, AdvanceEffect, AdvanceSignal, BeatDefinition, ConditionValue, ContentPack};
use crate::smap::{StrMap, StrSet};
use crate::state::{conv_key, GamePhase, WorldState};
use crate::text::{lemma_map_values_push, lex_lt};
use crate::variable_store::VariableScope;
use super::observation::{render_story_text, story_text};
use crate::state::clock::{two_digit_chars, two_digits};
use crate::text::{append_chars, chars_eq, chars_of, matches_at, seq_starts_with, string_from_chars};
use crate::variable_store::{parse_u32, parsed_u32, VariableStore};

verus! {

// ----------------------------------------------------------------------
// Condition paths
// ----------------------------------------------------------------------

/// Position of the first `.` in a path, or its length when it has none.
pub open spec fn first_dot(p: Seq<char>) -> nat
    decreases p.len(),
{
    if p.len() == 0 || p[0] == '.' { 0 } else { 1 + first_dot(p.drop_first()) }
}

/// The `.`-separated segments of a condition path.
pub open spec fn path_segments(p: Seq<char>) -> Seq<Seq<char>>
    decreases p.len(),
{
    let i = first_dot(p);
    if i >= p.len() { seq![p] } else { seq![p.take(i as int)] + path_segments(p.skip(i as int + 1)) }
}

pub open spec fn has_no_dot(c: Seq<char>) -> bool {
    forall|j: int| 0 <= j < c.len() ==> c[j] != '.'
}

proof fn lemma_first_dot_after(c: Seq<char>, r: Seq<char>)
    requires
        has_no_dot(c),
    ensures
        first_dot(c + r) == c.len() + first_dot(r),
    decreases c.len(),
{
    if c.len() > 0 {
        assert((c + r).drop_first() =~= c.drop_first() + r);
        lemma_first_dot_after(c.drop_first(), r);
    } else {
        assert(c + r =~= r);
    }
}

proof fn lemma_segments_no_dot(c: Seq<char>)
    requires
        has_no_dot(c),
    ensures
        path_segments(c) == seq![c],
{
    lemma_first_dot_after(c, Seq::empty());
    assert(c + Seq::<char>::empty() =~= c);
}

proof fn lemma_segments_split(c: Seq<char>, r: Seq<char>)
    requires
        has_no_dot(c),
    ensures
        path_segments(c + seq!['.'] + r) == seq![c] + path_segments(r),
{
    let p = c + seq!['.'] + r;
    assert(p =~= c + (seq!['.'] + r));
    lemma_first_dot_after(c, seq!['.'] + r);
    assert((seq!['.'] + r)[0] == '.');
    assert(first_dot(p) == c.len());
    assert(p.take(c.len() as int) =~= c);
    assert(p.skip(c.len() as int + 1) =~= r);
}

/// Splits a condition path at its dots.
pub fn split_path(path: &str) -> (r: Vec<Vec<char>>)
    ensures
        r@.map_values(|v: Vec<char>| v@) == path_segments(path@),
{
    let s = chars_of(path);
    let mut out: Vec<Vec<char>> = Vec::new();
    let mut cur: Vec<char> = Vec::new();
    let mut i: usize = 0;
    proof {
        assert(out@.map_values(|v: Vec<char>| v@) =~= Seq::<Seq<char>>::empty());
        assert(cur@ + s@.skip(0) =~= s@);
    }
    while i < s.len()
        invariant
            i <= s.len(),
            s@ == path@,
            has_no_dot(cur@),
            out@.map_values(|v: Vec<char>| v@) + path_segments(cur@ + s@.skip(i as int)) == path_segments(s@),
        decreases s.len() - i,
    {
        let c = s[i];
        if c == '.' {
            proof {
                assert(cur@ + s@.skip(i as int) =~= cur@ + seq!['.'] + s@.skip(i + 1));
                lemma_segments_split(cur@, s@.skip(i + 1));
                assert(out@.push(cur).map_values(|v: Vec<char>| v@) =~= out@.map_values(|v: Vec<char>| v@) + seq![cur@]);
            }
            out.push(cur);
            cur = Vec::new();
            proof {
                assert(cur@ + s@.skip(i + 1) =~= s@.skip(i + 1));
            }
        } else {
            proof {
                assert(cur@.push(c) + s@.skip(i + 1) =~= cur@ + s@.skip(i as int));
            }
            cur.push(c);
        }
        i = i + 1;
    }
    proof {
        assert(cur@ + s@.skip(i as int) =~= cur@);
        lemma_segments_no_dot(cur@);
        assert(out@.push(cur).map_values(|v: Vec<char>| v@) =~= out@.map_values(|v: Vec<char>| v@) + seq![cur@]);
    }
    out.push(cur);
    out
}

// ----------------------------------------------------------------------
// What a condition path reads from the world
// ----------------------------------------------------------------------

/// The number a path names: the clock, the count of completed stages, or an
/// actor or pair stat (`actor_stats.<actor>.<stat>`, `pair_stats.<pair>.<stat>`).
pub open spec fn condition_number(state: &WorldState, segs: Seq<Seq<char>>) -> Option<int> {
    if segs.len() == 1 && segs[0] == "current_time_minutes"@ {
        Some(state.current_time_minutes as int)
    } else if segs.len() == 1 && segs[0] == "stages_completed"@ {
        Some(state.stages_completed as int)
    } else if segs.len() == 3 && segs[0] == "actor_stats"@ && state.actor_stats@.dom().contains(segs[1])
        && state.actor_stats@[segs[1]]@.dom().contains(segs[2]) {
        Some(state.actor_stats@[segs[1]]@[segs[2]] as int)
    } else if segs.len() == 3 && segs[0] == "pair_stats"@ && state.pair_stats@.dom().contains(segs[1])
        && state.pair_stats@[segs[1]]@.dom().contains(segs[2]) {
        Some(state.pair_stats@[segs[1]]@[segs[2]] as int)
    } else {
        None
    }
}

/// The text a path names: a story variable (`story_vars.values.<key>`).
pub open spec fn condition_text(state: &WorldState, segs: Seq<Seq<char>>) -> Option<Seq<char>> {
    if segs.len() == 3 && segs[0] == "story_vars"@ && segs[1] == "values"@ && state.story_vars.vals().dom().contains(segs[2]) {
        Some(state.story_vars.vals()[segs[2]])
    } else {
        None
    }
}

/// The list a path names: the active stage ids.
pub open spec fn condition_list(state: &WorldState, segs: Seq<Seq<char>>) -> Option<Seq<Seq<char>>> {
    if segs.len() == 1 && segs[0] == "active_stage_ids"@ {
        Some(state.active_objective_stage_ids@.map_values(|s: String| s@))
    } else {
        None
    }
}

/// Whether the value a path names equals the expected value.
pub open spec fn condition_equals(state: &WorldState, segs: Seq<Seq<char>>, value: ConditionValue) -> bool {
    match value {
        ConditionValue::Number(n) => condition_number(state, segs) == Some(n as int),
        ConditionValue::Text(t) => condition_text(state, segs) == Some(t@),
        ConditionValue::Flag(_) => false,
    }
}

/// Whether the number a path names stands in the given relation to an
/// expected number (`greater_than`, `less_than`, `gte`, `lte`).
pub open spec fn condition_compares(state: &WorldState, segs: Seq<Seq<char>>, op: Seq<char>, value: ConditionValue) -> bool {
    match (condition_number(state, segs), value) {
        (Some(a), ConditionValue::Number(b)) => {
            if op == "greater_than"@ { a > b } else if op == "less_than"@ { a < b } else if op == "gte"@ { a >= b } else { a <= b }
        },
        _ => false,
    }
}

/// Whether one advance condition holds of the world. An unknown operator
/// never holds.
pub open spec fn condition_holds(state: &WorldState, cond: AdvanceCondition) -> bool {
    let segs = path_segments(cond.path@);
    let op = cond.operator@;
    if op == "equal"@ {
        condition_equals(state, segs, cond.value)
    } else if op == "not_equal"@ {
        !condition_equals(state, segs, cond.value)
    } else if op == "greater_than"@ || op == "less_than"@ || op == "gte"@ || op == "lte"@ {
        condition_compares(state, segs, op, cond.value)
    } else if op == "array_contains"@ {
        match (condition_list(state, segs), cond.value) {
            (Some(l), ConditionValue::Text(t)) => l.contains(t@),
            _ => false,
        }
    } else {
        false
    }
}

/// Whether every condition holds.
pub open spec fn conditions_hold(state: &WorldState, conds: Seq<AdvanceCondition>) -> bool {
    forall|i: int| 0 <= i < conds.len() ==> condition_holds(state, #[trigger] conds[i])
}

fn lit_eq(seg: &Vec<char>, lit: &str) -> (r: bool)
    ensures
        r == (seg@ == lit@),
{
    chars_eq(seg, &chars_of(lit))
}

fn number_at(state: &WorldState, segs: &Vec<Vec<char>>) -> (r: Option<i128>)
    requires
        state.wf(),
    ensures
        condition_number(state, segs@.map_values(|v: Vec<char>| v@)) == match r { Some(v) => Some(v as int), None => None::<int> },
{
    let ghost sv = segs@.map_values(|v: Vec<char>| v@);
    proof {
        reveal_strlit("current_time_minutes");
        reveal_strlit("stages_completed");
        reveal_strlit("actor_stats");
        reveal_strlit("pair_stats");
    }
    if segs.len() == 1 {
        if lit_eq(&segs[0], "current_time_minutes") {
            return Some(state.current_time_minutes as i128);
        }
        if lit_eq(&segs[0], "stages_completed") {
            return Some(state.stages_completed as i128);
        }
        return None;
    }
    if segs.len() != 3 {
        return None;
    }
    assert(sv[0] == segs@[0]@ && sv[1] == segs@[1]@ && sv[2] == segs@[2]@);
    if lit_eq(&segs[0], "actor_stats") {
        assert(sv[0] != "current_time_minutes"@ || sv.len() != 1);
        return match state.actor_stats.get(&segs[1]) {
            Some(stats) => {
                assert(state.actor_stats@.dom().contains(sv[1]));
                assert(stats.wf());
                match stats.get(&segs[2]) {
                    Some(v) => {
                        assert(*v == state.actor_stats@[sv[1]]@[sv[2]]);
                        Some(*v as i128)
                    },
                    None => None,
                }
            },
            None => None,
        };
    }
    if lit_eq(&segs[0], "pair_stats") {
        return match state.pair_stats.get(&segs[1]) {
            Some(stats) => match stats.get(&segs[2]) {
                Some(v) => Some(*v as i128),
                None => None,
            },
            None => None,
        };
    }
    None
}

fn text_at<'a>(state: &'a WorldState, segs: &Vec<Vec<char>>) -> (r: Option<&'a str>)
    requires
        state.wf(),
    ensures
        condition_text(state, segs@.map_values(|v: Vec<char>| v@)) == match r { Some(v) => Some(v@), None => None::<Seq<char>> },
{
    let ghost sv = segs@.map_values(|v: Vec<char>| v@);
    if segs.len() != 3 {
        return None;
    }
    assert(sv[0] == segs@[0]@ && sv[1] == segs@[1]@ && sv[2] == segs@[2]@);
    if lit_eq(&segs[0], "story_vars") && lit_eq(&segs[1], "values") {
        let key = string_from_chars(&segs[2]);
        state.story_vars.get(key.as_str())
    } else {
        None
    }
}

pub fn list_contains(list: &Vec<String>, value: &str) -> (r: bool)
    ensures
        r == list@.map_values(|s: String| s@).contains(value@),
{
    let target = chars_of(value);
    let mut i: usize = 0;
    while i < list.len()
        invariant
            i <= list.len(),
            target@ == value@,
            forall|j: int| 0 <= j < i ==> list@[j]@ != value@,
        decreases list.len() - i,
    {
        if chars_eq(&chars_of(list[i].as_str()), &target) {
            assert(list@.map_values(|s: String| s@)[i as int] == value@);
            return true;
        }
        i = i + 1;
    }
    proof {
        if list@.map_values(|s: String| s@).contains(value@) {
            let l = list@.map_values(|s: String| s@);
            let j = choose|j: int| 0 <= j < l.len() && #[trigger] l[j] == value@;
            assert(list@[j]@ == value@);
        }
    }
    false
}

fn equals_at(state: &WorldState, segs: &Vec<Vec<char>>, value: &ConditionValue) -> (r: bool)
    requires
        state.wf(),
    ensures
        r == condition_equals(state, segs@.map_values(|v: Vec<char>| v@), *value),
{
    match value {
        ConditionValue::Number(n) => match number_at(state, segs) {
            Some(v) => v == *n as i128,
            None => false,
        },
        ConditionValue::Text(t) => match text_at(state, segs) {
            Some(v) => chars_eq(&chars_of(v), &chars_of(t.as_str())),
            None => false,
        },
        ConditionValue::Flag(_) => false,
    }
}

/// Whether one advance condition holds of the world.
pub fn evaluate_advance_condition(state: &WorldState, cond: &AdvanceCondition) -> (r: bool)
    requires
        state.wf(),
    ensures
        r == condition_holds(state, *cond),
{
    let segs = split_path(cond.path.as_str());
    let op = chars_of(cond.operator.as_str());
    proof {
        reveal_strlit("equal");
        reveal_strlit("not_equal");
        reveal_strlit("greater_than");
        reveal_strlit("less_than");
        reveal_strlit("gte");
        reveal_strlit("lte");
        reveal_strlit("array_contains");
    }
    if lit_eq(&op, "equal") {
        return equals_at(state, &segs, &cond.value);
    }
    if lit_eq(&op, "not_equal") {
        return !equals_at(state, &segs, &cond.value);
    }
    let gt = lit_eq(&op, "greater_than");
    let lt = lit_eq(&op, "less_than");
    let ge = lit_eq(&op, "gte");
    let le = lit_eq(&op, "lte");
    if gt || lt || ge || le {
        return match (number_at(state, &segs), &cond.value) {
            (Some(a), ConditionValue::Number(b)) => {
                let b = *b as i128;
                if gt { a > b } else if lt { a < b } else if ge { a >= b } else { a <= b }
            },
            _ => false,
        };
    }
    if lit_eq(&op, "array_contains") {
        if segs.len() == 1 && lit_eq(&segs[0], "active_stage_ids") {
            assert(segs@.map_values(|v: Vec<char>| v@)[0] == segs@[0]@);
            return match &cond.value {
                ConditionValue::Text(t) => list_contains(&state.active_objective_stage_ids, t.as_str()),
                _ => false,
            };
        }
        assert(condition_list(state, segs@.map_values(|v: Vec<char>| v@)) is None) by {
            if segs.len() == 1 {
                assert(segs@.map_values(|v: Vec<char>| v@)[0] == segs@[0]@);
            }
        }
        return false;
    }
    false
}

/// Whether every condition holds; an empty list always does.
pub fn advance_conditions_met(state: &WorldState, conditions: &[AdvanceCondition]) -> (r: bool)
    requires
        state.wf(),
    ensures
        r == conditions_hold(state, conditions@),
{
    let mut i: usize = 0;
    while i < conditions.len()
        invariant
            state.wf(),
            i <= conditions.len(),
            forall|j: int| 0 <= j < i ==> condition_holds(state, #[trigger] conditions@[j]),
        decreases conditions.len() - i,
    {
        if !evaluate_advance_condition(state, &conditions[i]) {
            return false;
        }
        i = i + 1;
    }
    true
}


// ----------------------------------------------------------------------
// Signals
// ----------------------------------------------------------------------

pub open spec fn stage_elapsed_prefix() -> Seq<char> {
    "stage_elapsed:"@
}

pub open spec fn time_reached_prefix() -> Seq<char> {
    "time_reached:"@
}

/// `a - b`, or zero when `b` is larger.
pub open spec fn saturating_sub(a: int, b: int) -> int {
    if a >= b { a - b } else { 0 }
}

/// Whether a stage's candidate signal fires on the current signal. A
/// `stage_elapsed:<minutes>` candidate fires on any clock signal once that
/// many minutes have passed since the stage started; any other candidate
/// fires on the same signal. Either way its conditions must hold.
pub open spec fn signal_fires(
    state: &WorldState,
    stage_id: Seq<char>,
    signal: Seq<char>,
    candidate: Seq<char>,
    conds: Seq<AdvanceCondition>,
) -> bool {
    if seq_starts_with(candidate, stage_elapsed_prefix()) {
        match parsed_u32(candidate.skip(stage_elapsed_prefix().len() as int)) {
            None => false,
            Some(required) => {
                &&& state.stage_started_minutes@.dom().contains(stage_id)
                &&& seq_starts_with(signal, time_reached_prefix())
                &&& saturating_sub(state.current_time_minutes as int, state.stage_started_minutes@[stage_id] as int) >= required
                &&& conditions_hold(state, conds)
            },
        }
    } else {
        candidate == signal && conditions_hold(state, conds)
    }
}

fn chars_from(s: &Vec<char>, start: usize) -> (r: Vec<char>)
    requires
        start <= s.len(),
    ensures
        r@ == s@.skip(start as int),
{
    let mut r: Vec<char> = Vec::new();
    let mut i: usize = start;
    while i < s.len()
        invariant
            start <= i <= s.len(),
            r@ == s@.subrange(start as int, i as int),
        decreases s.len() - i,
    {
        r.push(s[i]);
        i = i + 1;
        assert(r@ =~= s@.subrange(start as int, i as int));
    }
    assert(s@.subrange(start as int, s.len() as int) =~= s@.skip(start as int));
    r
}

fn starts_with_lit(s: &Vec<char>, lit: &str) -> (r: bool)
    ensures
        r == seq_starts_with(s@, lit@),
{
    let p = chars_of(lit);
    let r = matches_at(s, 0, &p);
    assert(s@.skip(0) =~= s@);
    r
}

/// Whether a stage's candidate signal fires on the current signal.
pub fn advance_signal_matches(
    state: &WorldState,
    current_stage_id: &str,
    current_signal: &str,
    candidate_signal: &str,
    conditions: &[AdvanceCondition],
) -> (r: bool)
    requires
        state.wf(),
    ensures
        r == signal_fires(state, current_stage_id@, current_signal@, candidate_signal@, conditions@),
{
    let candidate = chars_of(candidate_signal);
    if starts_with_lit(&candidate, "stage_elapsed:") {
        let prefix_len = chars_of("stage_elapsed:").len();
        let rest = chars_from(&candidate, prefix_len);
        assert(rest@ =~= candidate@.skip(stage_elapsed_prefix().len() as int));
        let required = match parse_u32(&rest) {
            Some(m) => m,
            None => return false,
        };
        let started = match state.stage_started_minutes.get(&chars_of(current_stage_id)) {
            Some(m) => *m,
            None => return false,
        };
        let elapsed = if state.current_time_minutes >= started { state.current_time_minutes - started } else { 0 };
        return starts_with_lit(&chars_of(current_signal), "time_reached:")
            && elapsed >= required
            && advance_conditions_met(state, conditions);
    }
    chars_eq(&candidate, &chars_of(current_signal)) && advance_conditions_met(state, conditions)
}

/// The clock signal for a minute of the day, such as `time_reached:09:05`.
pub open spec fn time_signal(minutes: nat) -> Seq<char> {
    time_reached_prefix() + two_digits((minutes / 60) % 24) + ":"@ + two_digits(minutes % 60)
}

/// The clock signal for a time.
pub fn time_reached_signal(current_time_minutes: u32) -> (r: String)
    ensures
        r@ == time_signal(current_time_minutes as nat),
{
    let hour24 = ((current_time_minutes / 60) % 24) as u64;
    let minute = (current_time_minutes % 60) as u64;
    let mut out = chars_of("time_reached:");
    append_chars(&mut out, &two_digit_chars(hour24));
    append_chars(&mut out, &chars_of(":"));
    append_chars(&mut out, &two_digit_chars(minute));
    string_from_chars(&out)
}

/// The clock signals for every minute after `previous_time_minutes` up to
/// and including `current_time_minutes`.
pub fn time_reached_signals(previous_time_minutes: u32, current_time_minutes: u32) -> (r: Vec<String>)
    requires
        previous_time_minutes < u32::MAX,
    ensures
        r.len() == if current_time_minutes > previous_time_minutes { current_time_minutes - previous_time_minutes } else { 0 },
        forall|i: int| 0 <= i < r.len() ==> (#[trigger] r@[i])@ == time_signal((previous_time_minutes + 1 + i) as nat),
{
    let mut out: Vec<String> = Vec::new();
    let mut t: u32 = previous_time_minutes + 1;
    while t <= current_time_minutes
        invariant
            previous_time_minutes < t,
            t <= current_time_minutes + 1 || current_time_minutes <= previous_time_minutes,
            t > current_time_minutes ==> t == previous_time_minutes + 1 || t == current_time_minutes + 1,
            out.len() == t - previous_time_minutes - 1,
            forall|i: int| 0 <= i < out.len() ==> (#[trigger] out@[i])@ == time_signal((previous_time_minutes + 1 + i) as nat),
        decreases current_time_minutes + 1 - t,
    {
        out.push(time_reached_signal(t));
        if t == u32::MAX {
            return out;
        }
        t = t + 1;
    }
    out
}

// ----------------------------------------------------------------------
// Fallback stage
// ----------------------------------------------------------------------

/// Whether some stage has the given id.
pub open spec fn has_stage(stages: Seq<BeatDefinition>, id: Seq<char>) -> bool {
    exists|i: int| 0 <= i < stages.len() && (#[trigger] stages[i]).id@ == id
}

/// The fallback stage to start when no stage is active: only while the game
/// goes on, when the fallback exists, and once every required story
/// variable is set.
pub open spec fn fallback_stage(
    fallback_stage_id: Seq<char>,
    required: Seq<Seq<char>>,
    stages: Seq<BeatDefinition>,
    active_count: nat,
    game_over: bool,
    story_vars: VariableStore,
) -> Option<Seq<char>> {
    if game_over || active_count > 0 || fallback_stage_id.len() == 0 {
        None
    } else if !(forall|i: int| 0 <= i < required.len() ==> story_vars.vals().dom().contains(#[trigger] required[i])) {
        None
    } else if has_stage(stages, fallback_stage_id) {
        Some(fallback_stage_id)
    } else {
        None
    }
}

/// Index of the first stage with the given id.
pub fn find_stage(stages: &[BeatDefinition], id: &str) -> (r: Option<usize>)
    ensures
        r matches Some(i) ==> i < stages.len() && stages@[i as int].id@ == id@
            && forall|j: int| 0 <= j < i ==> stages@[j].id@ != id@,
        r is None ==> !has_stage(stages@, id@),
{
    let target = chars_of(id);
    let mut i: usize = 0;
    while i < stages.len()
        invariant
            i <= stages.len(),
            target@ == id@,
            forall|j: int| 0 <= j < i ==> stages@[j].id@ != id@,
        decreases stages.len() - i,
    {
        if chars_eq(&chars_of(stages[i].id.as_str()), &target) {
            return Some(i);
        }
        i = i + 1;
    }
    None
}

/// The fallback stage to start, if any.
pub fn fallback_stage_to_activate(
    fallback_stage_id: &str,
    fallback_required_story_vars: &[String],
    stages: &[BeatDefinition],
    active_stage_ids: &[String],
    game_over: bool,
    story_vars: &VariableStore,
) -> (r: Option<String>)
    requires
        story_vars.wf(),
    ensures
        match r {
            Some(s) => fallback_stage(fallback_stage_id@, fallback_required_story_vars@.map_values(|s: String| s@), stages@,
                active_stage_ids@.len(), game_over, *story_vars) == Some(s@),
            None => fallback_stage(fallback_stage_id@, fallback_required_story_vars@.map_values(|s: String| s@), stages@,
                active_stage_ids@.len(), game_over, *story_vars) is None,
        },
{
    let ghost req = fallback_required_story_vars@.map_values(|s: String| s@);
    if game_over || active_stage_ids.len() > 0 || chars_of(fallback_stage_id).len() == 0 {
        return None;
    }
    let mut i: usize = 0;
    while i < fallback_required_story_vars.len()
        invariant
            story_vars.wf(),
            i <= fallback_required_story_vars.len(),
            req == fallback_required_story_vars@.map_values(|s: String| s@),
            forall|j: int| 0 <= j < i ==> story_vars.vals().dom().contains(#[trigger] req[j]),
        decreases fallback_required_story_vars.len() - i,
    {
        if !story_vars.has(fallback_required_story_vars[i].as_str()) {
            assert(!story_vars.vals().dom().contains(req[i as int]));
            return None;
        }
        i = i + 1;
    }
    match find_stage(stages, fallback_stage_id) {
        Some(k) => Some(stages[k].id.clone()),
        None => None,
    }
}


// ----------------------------------------------------------------------
// Advancing the stages on a signal
// ----------------------------------------------------------------------

/// Whether any of a stage's candidate signals fires.
pub open spec fn stage_fires(state: &WorldState, stage_id: Seq<char>, signal: Seq<char>, signals: Seq<AdvanceSignal>) -> bool {
    exists|j: int| 0 <= j < signals.len()
        && signal_fires(state, stage_id, signal, (#[trigger] signals[j]).spec_signal(), signals[j].spec_conditions())
}

/// Whether a candidate signal's name can fire on the signal at all,
/// whatever its conditions and the clock say.
pub open spec fn name_can_fire(candidate: Seq<char>, signal: Seq<char>) -> bool {
    if seq_starts_with(candidate, stage_elapsed_prefix()) {
        seq_starts_with(signal, time_reached_prefix()) && parsed_u32(candidate.skip(stage_elapsed_prefix().len() as int)) is Some
    } else {
        candidate == signal
    }
}

/// Whether a stage has a candidate that fires on the signal by its name
/// alone: the same signal, not a `stage_elapsed:` one, without conditions.
pub open spec fn fires_unconditionally(signal: Seq<char>, signals: Seq<AdvanceSignal>) -> bool {
    exists|j: int| 0 <= j < signals.len() && (#[trigger] signals[j]).spec_signal() == signal
        && !seq_starts_with(signal, stage_elapsed_prefix()) && signals[j].spec_conditions().len() == 0
}

/// Whether any candidate's name can fire on the signal.
pub open spec fn some_name_can_fire(signal: Seq<char>, signals: Seq<AdvanceSignal>) -> bool {
    exists|j: int| 0 <= j < signals.len() && name_can_fire((#[trigger] signals[j]).spec_signal(), signal)
}

/// Whether any of a stage's candidate signals fires.
pub fn any_signal_fires(state: &WorldState, stage_id: &str, signal: &str, signals: &[AdvanceSignal]) -> (r: bool)
    requires
        state.wf(),
    ensures
        r == stage_fires(state, stage_id@, signal@, signals@),
        r ==> some_name_can_fire(signal@, signals@),
        fires_unconditionally(signal@, signals@) ==> r,
{
    let mut j: usize = 0;
    while j < signals.len()
        invariant
            state.wf(),
            j <= signals.len(),
            forall|k: int| 0 <= k < j ==> !signal_fires(state, stage_id@, signal@, (#[trigger] signals@[k]).spec_signal(), signals@[k].spec_conditions()),
        decreases signals.len() - j,
    {
        let candidate = &signals[j];
        if advance_signal_matches(state, stage_id, signal, candidate.signal(), candidate.conditions()) {
            assert(name_can_fire(signals@[j as int].spec_signal(), signal@));
            return true;
        }
        j = j + 1;
    }
    proof {
        if fires_unconditionally(signal@, signals@) {
            let k = choose|k: int| 0 <= k < signals@.len() && (#[trigger] signals@[k]).spec_signal() == signal@
                && !seq_starts_with(signal@, stage_elapsed_prefix()) && signals@[k].spec_conditions().len() == 0;
            assert(conditions_hold(state, signals@[k].spec_conditions()));
            assert(signal_fires(state, stage_id@, signal@, signals@[k].spec_signal(), signals@[k].spec_conditions()));
        }
    }
    false
}

/// The most next stages any stage leads to.
pub open spec fn max_next_len(stages: Seq<BeatDefinition>) -> nat
    decreases stages.len(),
{
    if stages.len() == 0 {
        0
    } else {
        let rest = max_next_len(stages.drop_last());
        let l = stages.last().next_stage_ids.len() as nat;
        if l > rest { l } else { rest }
    }
}

/// The most minutes any stage lets pass.
pub open spec fn max_elapsed(stages: Seq<BeatDefinition>) -> nat
    decreases stages.len(),
{
    if stages.len() == 0 {
        0
    } else {
        let rest = max_elapsed(stages.drop_last());
        let l = stages.last().elapsed_minutes as nat;
        if l > rest { l } else { rest }
    }
}

proof fn lemma_max_bounds(stages: Seq<BeatDefinition>, i: int)
    requires
        0 <= i < stages.len(),
    ensures
        stages[i].next_stage_ids.len() <= max_next_len(stages),
        stages[i].elapsed_minutes <= max_elapsed(stages),
    decreases stages.len(),
{
    if i < stages.len() - 1 {
        lemma_max_bounds(stages.drop_last(), i);
    }
}

/// Whether `after` differs from `before` at most in what advancing the
/// stages may change: the stage bookkeeping, the clock, actor placement, the
/// projector queue, the open menu, stats, story variables and the phase.
pub open spec fn only_story_fields_changed(before: &WorldState, after: &WorldState) -> bool {
    *after == WorldState {
        active_objective_stage_ids: after.active_objective_stage_ids,
        stage_started_minutes: after.stage_started_minutes,
        stages_completed: after.stages_completed,
        current_time_minutes: after.current_time_minutes,
        actor_room_overrides: after.actor_room_overrides,
        pending_projector_sequence_id: after.pending_projector_sequence_id,
        pending_projector_narrative_lines: after.pending_projector_narrative_lines,
        active_menu_id: after.active_menu_id,
        actor_stats: after.actor_stats,
        pair_stats: after.pair_stats,
        story_vars: after.story_vars,
        phase: after.phase,
        ..*before
    }
}

/// Whether `after` is `before` with one actor stat moved by `delta` (held
/// within the stat's bounds), every other stat read unchanged.
pub open spec fn actor_stat_moved(before: WorldState, after: WorldState, actor: Seq<char>, stat: Seq<char>, delta: int) -> bool {
    &&& after.wf()
    &&& after == (WorldState { actor_stats: after.actor_stats, ..before })
    &&& forall|a: Seq<char>, k: Seq<char>| #[trigger] after.spec_actor_stat(a, k) == if before.spec_remap(a) == before.spec_remap(actor) && k == stat {
            before.actor_stat_defs@[stat].spec_clamp(before.spec_actor_stat(actor, stat) + delta)
        } else {
            before.spec_actor_stat(a, k)
        }
}

/// Whether `after` is `before` with one pair stat moved by `delta` (held
/// within the stat's bounds), every other pair stat read unchanged.
pub open spec fn pair_stat_moved(before: WorldState, after: WorldState, x: Seq<char>, y: Seq<char>, stat: Seq<char>, delta: int) -> bool {
    &&& after.wf()
    &&& after == (WorldState { pair_stats: after.pair_stats, ..before })
    &&& forall|a: Seq<char>, b: Seq<char>, k: Seq<char>| #[trigger] after.spec_pair_stat(a, b, k) == if conv_key(a, b) == conv_key(x, y) && k == stat {
            before.pair_stat_defs@[stat].spec_clamp(before.spec_pair_stat(x, y, stat) + delta)
        } else {
            before.spec_pair_stat(a, b, k)
        }
}

/// What one effect of a started stage does: a story variable is set, or a
/// declared stat moves when the move stays within the range of `i32`;
/// otherwise nothing changes.
pub open spec fn effect_applied(before: WorldState, after: WorldState, effect: AdvanceEffect) -> bool {
    match effect {
        AdvanceEffect::SetStoryVar { key, value } => {
            &&& after.wf()
            &&& after == (WorldState { story_vars: after.story_vars, ..before })
            &&& after.story_vars.decls() == before.story_vars.decls()
            &&& after.story_vars.vals() == before.story_vars.vals().insert(key@, value@)
        },
        AdvanceEffect::AdjustActorStat { actor_id, stat, delta } => {
            let v = before.spec_actor_stat(actor_id@, stat@) + delta;
            if before.actor_stat_defs@.dom().contains(stat@) && i32::MIN <= v <= i32::MAX {
                actor_stat_moved(before, after, actor_id@, stat@, delta as int)
            } else {
                after == before
            }
        },
        AdvanceEffect::AdjustPairStat { participant_a_id, participant_b_id, stat, delta } => {
            let v = before.spec_pair_stat(participant_a_id@, participant_b_id@, stat@) + delta;
            if before.pair_stat_defs@.dom().contains(stat@) && i32::MIN <= v <= i32::MAX {
                pair_stat_moved(before, after, participant_a_id@, participant_b_id@, stat@, delta as int)
            } else {
                after == before
            }
        },
    }
}

/// Applies one effect of a stage that became active (see `effect_applied`).
fn apply_advance_effect(state: &mut WorldState, effect: &AdvanceEffect)
    requires
        old(state).wf(),
    ensures
        final(state).wf(),
        final(state).current_time_minutes == old(state).current_time_minutes,
        final(state).stages_completed == old(state).stages_completed,
        final(state).stage_started_minutes == old(state).stage_started_minutes,
        final(state).active_objective_stage_ids == old(state).active_objective_stage_ids,
        final(state).phase == old(state).phase,
        final(state).actor_room_overrides == old(state).actor_room_overrides,
        final(state).active_menu_id == old(state).active_menu_id,
        final(state).pending_projector_sequence_id == old(state).pending_projector_sequence_id,
        final(state).story_vars.decls() == old(state).story_vars.decls(),
        only_story_fields_changed(old(state), final(state)),
        effect_applied(*old(state), *final(state), *effect),
{
    match effect {
        AdvanceEffect::AdjustActorStat { actor_id, stat, delta } => {
            if state.actor_stat_defs.contains_str(stat.as_str()) {
                let current = state.actor_stat(actor_id.as_str(), stat.as_str()) as i64;
                let next = current + *delta as i64;
                if next < i32::MIN as i64 || next > i32::MAX as i64 {
                    return;
                }
            }
            let _ = state.adjust_actor_stat(actor_id.as_str(), stat.as_str(), *delta);
            proof {
                if old(state).actor_stat_defs@.dom().contains(stat@) {
                    assert forall|a: Seq<char>, k: Seq<char>| #[trigger] state.spec_actor_stat(a, k) == if old(state).spec_remap(a) == old(state).spec_remap(actor_id@) && k == stat@ {
                        old(state).actor_stat_defs@[stat@].spec_clamp(old(state).spec_actor_stat(actor_id@, stat@) + *delta)
                    } else {
                        old(state).spec_actor_stat(a, k)
                    } by {
                        if old(state).spec_remap(a) == old(state).spec_remap(actor_id@) && k == stat@ {
                            assert(state.spec_actor_stat(a, k) == state.spec_actor_stat(actor_id@, k));
                        }
                    }
                }
            }
        },
        AdvanceEffect::AdjustPairStat { participant_a_id, participant_b_id, stat, delta } => {
            if state.pair_stat_defs.contains_str(stat.as_str()) {
                let current = state.pair_stat(participant_a_id.as_str(), participant_b_id.as_str(), stat.as_str()) as i64;
                let next = current + *delta as i64;
                if next < i32::MIN as i64 || next > i32::MAX as i64 {
                    return;
                }
            }
            let _ = state.adjust_pair_stat(participant_a_id.as_str(), participant_b_id.as_str(), stat.as_str(), *delta);
            proof {
                if old(state).pair_stat_defs@.dom().contains(stat@) {
                    assert forall|a: Seq<char>, b: Seq<char>, k: Seq<char>| #[trigger] state.spec_pair_stat(a, b, k)
                        == if conv_key(a, b) == conv_key(participant_a_id@, participant_b_id@) && k == stat@ {
                        old(state).pair_stat_defs@[stat@].spec_clamp(old(state).spec_pair_stat(participant_a_id@, participant_b_id@, stat@) + *delta)
                    } else {
                        old(state).spec_pair_stat(a, b, k)
                    } by {
                        if conv_key(a, b) == conv_key(participant_a_id@, participant_b_id@) && k == stat@ {
                            assert(state.spec_pair_stat(a, b, k) == state.spec_pair_stat(participant_a_id@, participant_b_id@, k));
                        }
                    }
                }
            }
        },
        AdvanceEffect::SetStoryVar { key, value } => {
            state.story_vars.set_unchecked(key.as_str(), value.as_str());
        },
    }
}

/// Index of the first film whose match value is the given text.
fn find_movie(content: &ContentPack, value: &str) -> (r: Option<usize>)
    ensures
        r matches Some(i) ==> i < content.movies.len() && content.movies@[i as int].match_value@ == value@
            && forall|j: int| 0 <= j < i ==> content.movies@[j].match_value@ != value@,
        r is None ==> forall|i: int| 0 <= i < content.movies.len() ==> content.movies@[i].match_value@ != value@,
{
    let target = chars_of(value);
    let mut i: usize = 0;
    while i < content.movies.len()
        invariant
            i <= content.movies.len(),
            target@ == value@,
            forall|j: int| 0 <= j < i ==> content.movies@[j].match_value@ != value@,
        decreases content.movies.len() - i,
    {
        if chars_eq(&chars_of(content.movies[i].match_value.as_str()), &target) {
            return Some(i);
        }
        i = i + 1;
    }
    None
}

/// Whether a stage that becomes active screens a film: it names a story
/// variable, the variable is set, and some film matches its value.
pub open spec fn screens_film(state: &WorldState, content: &ContentPack, stage: &BeatDefinition) -> bool {
    let key = stage.projector_sequence_var_key@;
    &&& key.len() > 0
    &&& state.story_vars.vals().dom().contains(key)
    &&& exists|i: int| 0 <= i < content.movies.len()
        && (#[trigger] content.movies@[i]).match_value@ == state.story_vars.vals()[key]
}

/// The actor placements after the first `n` relocations of a stage.
pub open spec fn relocated(m: Map<Seq<char>, String>, rels: Seq<crate::content::ActorRelocation>, n: int) -> Map<Seq<char>, String>
    decreases n,
{
    if n <= 0 { m } else { relocated(m, rels, n - 1).insert(rels[n - 1].actor_id@, rels[n - 1].to_room_id) }
}

/// Whether `trace` runs through the given effects one after another.
pub open spec fn effects_chain(effects: Seq<AdvanceEffect>, trace: Seq<WorldState>) -> bool {
    &&& trace.len() == effects.len() + 1
    &&& forall|i: int| 0 <= i < effects.len() ==> #[trigger] effect_applied(trace[i], trace[i + 1], effects[i])
}

/// Whether `i` is the first film whose match value is `value`.
pub open spec fn is_first_movie(content: &ContentPack, value: Seq<char>, i: int) -> bool {
    &&& 0 <= i < content.movies.len()
    &&& content.movies@[i].match_value@ == value
    &&& forall|j: int| 0 <= j < i ==> content.movies@[j].match_value@ != value
}

/// A stage's narration, with the story variables and stats of `state`
/// filled in.
pub open spec fn stage_lines(stage: BeatDefinition, state: &WorldState) -> Seq<Seq<char>> {
    Seq::new(stage.narrative_lines@.len(), |i: int| story_text(stage.narrative_lines@[i]@, state))
}

/// What starting a stage does, from world `b` with start times `bs` and
/// narration `bm` to world `a` with `as_` and `am`: its actors are relocated,
/// its minutes pass, it gets a start time unless it has one, and then either
/// its film is queued with its narration for the projector, or its narration
/// is told, its menu opens, its effects apply in order, and the act or the
/// game ends when it says so.
pub open spec fn stage_activated(content: &ContentPack, stage: BeatDefinition, id: Seq<char>,
    b: WorldState, bs: Map<Seq<char>, u32>, bm: Seq<Seq<char>>,
    a: WorldState, as_: Map<Seq<char>, u32>, am: Seq<Seq<char>>) -> bool {
    let moved = relocated(b.actor_room_overrides@, stage.actor_relocations@, stage.actor_relocations.len() as int);
    let lines = stage_lines(stage, &b);
    let key = stage.projector_sequence_var_key@;
    &&& a.current_time_minutes == b.current_time_minutes + stage.elapsed_minutes
    &&& as_ == (if bs.dom().contains(id) { bs } else { bs.insert(id, a.current_time_minutes) })
    &&& a.actor_room_overrides@ == moved
    &&& if screens_film(&b, content, &stage) {
        &&& am == bm
        &&& a == (WorldState { actor_room_overrides: a.actor_room_overrides, current_time_minutes: a.current_time_minutes,
            pending_projector_sequence_id: a.pending_projector_sequence_id,
            pending_projector_narrative_lines: a.pending_projector_narrative_lines, ..b })
        &&& exists|m: int| #[trigger] is_first_movie(content, b.story_vars.vals()[key], m)
            && a.pending_projector_sequence_id == Some(content.movies@[m].id)
        &&& a.pending_projector_narrative_lines@.map_values(|s: String| s@) == lines
    } else {
        &&& am == bm + lines
        &&& exists|et: Seq<WorldState>| #[trigger] effects_chain(stage.on_advance_effects@, et)
            && et[0] == (WorldState { actor_room_overrides: a.actor_room_overrides, current_time_minutes: a.current_time_minutes,
                active_menu_id: if stage.open_menu@.len() > 0 { Some(stage.open_menu) } else { b.active_menu_id }, ..b })
            && a == (WorldState { stages_completed: a.stages_completed, phase: a.phase, ..et.last() })
            && a.stages_completed == et.last().stages_completed
                + (if stage.end_act && content.act_cast.len() > 0 { 1int } else { 0int })
                + (if stage.end_game { 1int } else { 0int })
            && a.phase == if stage.end_game {
                GamePhase::GameEnded
            } else if stage.end_act && content.act_cast.len() > 0 {
                GamePhase::ActEnded
            } else {
                et.last().phase
            }
    }
}

/// Starts one next stage: moves the actors it relocates, lets its minutes
/// pass, records when it started (unless it already has a start), and then
/// either queues its film with its narration for the projector, or renders
/// its narration, opens its menu, applies its effects and ends the act or
/// the game when it says so.
fn activate_next_stage(
    state: &mut WorldState,
    content: &ContentPack,
    next_stage: &BeatDefinition,
    next_stage_id: &str,
    next_started: &mut StrMap<u32>,
    messages: &mut Vec<String>,
)
    requires
        old(state).wf(),
        content.wf(),
        old(next_started).wf(),
        old(state).current_time_minutes + next_stage.elapsed_minutes <= u32::MAX,
        old(state).stages_completed + 2 <= usize::MAX,
    ensures
        final(state).wf(),
        final(next_started).wf(),
        only_story_fields_changed(old(state), final(state)),
        final(state).current_time_minutes == old(state).current_time_minutes + next_stage.elapsed_minutes,
        old(state).stages_completed <= final(state).stages_completed <= old(state).stages_completed + 2,
        final(state).stage_started_minutes == old(state).stage_started_minutes,
        final(state).active_objective_stage_ids == old(state).active_objective_stage_ids,
        final(state).story_vars.decls() == old(state).story_vars.decls(),
        final(next_started)@ == if old(next_started)@.dom().contains(next_stage_id@) { old(next_started)@ } else {
            old(next_started)@.insert(next_stage_id@, final(state).current_time_minutes)
        },
        forall|i: int| 0 <= i < next_stage.actor_relocations.len() ==>
            final(state).actor_room_overrides@.dom().contains(#[trigger] next_stage.actor_relocations@[i].actor_id@),
        screens_film(old(state), content, next_stage) ==> {
            &&& final(state).pending_projector_sequence_id is Some
            &&& final(state).phase == old(state).phase
            &&& final(state).stages_completed == old(state).stages_completed
            &&& final(state).active_menu_id == old(state).active_menu_id
            &&& final(state).pending_projector_narrative_lines.len() == next_stage.narrative_lines.len()
        },
        !screens_film(old(state), content, next_stage) ==> {
            &&& final(state).pending_projector_sequence_id == old(state).pending_projector_sequence_id
            &&& final(state).phase == if next_stage.end_game {
                GamePhase::GameEnded
            } else if next_stage.end_act && content.act_cast.len() > 0 {
                GamePhase::ActEnded
            } else {
                old(state).phase
            }
            &&& final(state).stages_completed == old(state).stages_completed
                + (if next_stage.end_act && content.act_cast.len() > 0 { 1int } else { 0int })
                + (if next_stage.end_game { 1int } else { 0int })
            &&& final(state).active_menu_id == if next_stage.open_menu@.len() > 0 {
                Some(next_stage.open_menu)
            } else {
                old(state).active_menu_id
            }
            &&& final(messages)@.len() == old(messages)@.len() + next_stage.narrative_lines.len()
            &&& final(messages)@.subrange(0, old(messages)@.len() as int) == old(messages)@
        },
        stage_activated(content, *next_stage, next_stage_id@, *old(state), old(next_started)@, old(messages)@.map_values(|s: String| s@),
            *final(state), final(next_started)@, final(messages)@.map_values(|s: String| s@)),
{
    let mut r: usize = 0;
    while r < next_stage.actor_relocations.len()
        invariant
            state.wf(),
            r <= next_stage.actor_relocations.len(),
            state.current_time_minutes == old(state).current_time_minutes,
            state.stages_completed == old(state).stages_completed,
            state.stage_started_minutes == old(state).stage_started_minutes,
            state.active_objective_stage_ids == old(state).active_objective_stage_ids,
            state.story_vars == old(state).story_vars,
            state.phase == old(state).phase,
            state.pending_projector_sequence_id == old(state).pending_projector_sequence_id,
            state.active_menu_id == old(state).active_menu_id,
            only_story_fields_changed(old(state), state),
            forall|i: int| 0 <= i < r ==>
                state.actor_room_overrides@.dom().contains(#[trigger] next_stage.actor_relocations@[i].actor_id@),
            state.actor_room_overrides@ == relocated(old(state).actor_room_overrides@, next_stage.actor_relocations@, r as int),
            *state == (WorldState { actor_room_overrides: state.actor_room_overrides, ..*old(state) }),
        decreases next_stage.actor_relocations.len() - r,
    {
        let relocation = &next_stage.actor_relocations[r];
        state.actor_room_overrides.insert_str(relocation.actor_id.as_str(), relocation.to_room_id.clone());
        r = r + 1;
    }
    assert(old(messages)@.subrange(0, old(messages)@.len() as int) =~= old(messages)@);
    let ghost placed = *state;
    let ghost stage_view = *next_stage;
    if chars_of(next_stage.projector_sequence_var_key.as_str()).len() > 0 {
        let movie = match state.story_vars.get(next_stage.projector_sequence_var_key.as_str()) {
            Some(selected) => {
                let found = find_movie(content, selected);
                proof {
                    assert(selected@ == state.story_vars.vals()[next_stage.projector_sequence_var_key@]);
                    assert(state.story_vars == old(state).story_vars);
                    if found is Some {
                        let i = found->0;
                        assert(content.movies@[i as int].match_value@ == selected@);
                        assert(is_first_movie(content, old(state).story_vars.vals()[next_stage.projector_sequence_var_key@], i as int));
                    } else {
                        assert(!screens_film(old(state), content, next_stage));
                    }
                }
                found
            },
            None => None,
        };
        assert(movie matches Some(m) ==> is_first_movie(content, old(state).story_vars.vals()[next_stage.projector_sequence_var_key@], m as int));
        match movie {
            Some(m) => {
                state.pending_projector_sequence_id = Some(content.movies[m].id.clone());
                state.current_time_minutes = state.current_time_minutes + next_stage.elapsed_minutes;
                if !next_started.contains_str(next_stage_id) {
                    next_started.insert_str(next_stage_id, state.current_time_minutes);
                }
                let mut lines: Vec<String> = Vec::new();
                let mut k: usize = 0;
                while k < next_stage.narrative_lines.len()
                    invariant
                        state.wf(),
                        k <= next_stage.narrative_lines.len(),
                        lines.len() == k,
                        state.story_vars == old(state).story_vars,
                        state.actor_stats == old(state).actor_stats,
                        forall|j: int| 0 <= j < k ==> (#[trigger] lines@[j])@ == story_text(next_stage.narrative_lines@[j]@, state),
                    decreases next_stage.narrative_lines.len() - k,
                {
                    lines.push(render_story_text(next_stage.narrative_lines[k].as_str(), state));
                    k = k + 1;
                }
                proof {
                    assert forall|j: int| 0 <= j < k implies (#[trigger] lines@[j])@ == story_text(next_stage.narrative_lines@[j]@, old(state)) by {
                        assert(lines@[j]@ == story_text(next_stage.narrative_lines@[j]@, state));
                    }
                    assert(lines@.map_values(|s: String| s@) =~= stage_lines(*next_stage, old(state)));
                    assert(is_first_movie(content, old(state).story_vars.vals()[next_stage.projector_sequence_var_key@], m as int));
                    assert(content.movies@[m as int].match_value@ == old(state).story_vars.vals()[next_stage.projector_sequence_var_key@]);
                    assert(screens_film(old(state), content, next_stage));
                }
                state.pending_projector_narrative_lines = lines;
                proof {
                    assert(messages@.map_values(|s: String| s@) =~= old(messages)@.map_values(|s: String| s@));
                }
                return;
            },
            None => {},
        }
    }
    state.current_time_minutes = state.current_time_minutes + next_stage.elapsed_minutes;
    if !next_started.contains_str(next_stage_id) {
        next_started.insert_str(next_stage_id, state.current_time_minutes);
    }
    let ghost before_messages = messages@;
    let ghost timed = *state;
    let mut k: usize = 0;
    while k < next_stage.narrative_lines.len()
        invariant
            state.wf(),
            *state == timed,
            timed.story_vars == old(state).story_vars,
            timed.actor_stats == old(state).actor_stats,
            k <= next_stage.narrative_lines.len(),
            messages@.len() == before_messages.len() + k,
            messages@.subrange(0, before_messages.len() as int) == before_messages,
            messages@.map_values(|s: String| s@) == before_messages.map_values(|s: String| s@) + stage_lines(*next_stage, old(state)).take(k as int),
        decreases next_stage.narrative_lines.len() - k,
    {
        let ghost prev = messages@;
        let t = render_story_text(next_stage.narrative_lines[k].as_str(), state);
        assert(t@ == story_text(next_stage.narrative_lines@[k as int]@, old(state)));
        messages.push(t);
        assert(messages@.map_values(|s: String| s@) =~= prev.map_values(|s: String| s@).push(t@));
        assert(stage_lines(*next_stage, old(state)).take(k as int + 1) =~= stage_lines(*next_stage, old(state)).take(k as int).push(t@));
        k = k + 1;
    }
    assert(stage_lines(*next_stage, old(state)).take(k as int) =~= stage_lines(*next_stage, old(state)));
    if chars_of(next_stage.open_menu.as_str()).len() > 0 {
        state.active_menu_id = Some(next_stage.open_menu.clone());
    }
    let ghost before_effects = *state;
    let ghost mut et: Seq<WorldState> = seq![*state];
    let mut e: usize = 0;
    while e < next_stage.on_advance_effects.len()
        invariant
            state.wf(),
            e <= next_stage.on_advance_effects.len(),
            et.len() == e + 1,
            et[0] == before_effects,
            et[e as int] == *state,
            forall|i: int| 0 <= i < e ==> #[trigger] effect_applied(et[i], et[i + 1], next_stage.on_advance_effects@[i]),
            state.current_time_minutes == before_effects.current_time_minutes,
            state.stages_completed == before_effects.stages_completed,
            state.stage_started_minutes == before_effects.stage_started_minutes,
            state.active_objective_stage_ids == before_effects.active_objective_stage_ids,
            state.phase == before_effects.phase,
            state.actor_room_overrides == before_effects.actor_room_overrides,
            state.pending_projector_sequence_id == before_effects.pending_projector_sequence_id,
            state.active_menu_id == before_effects.active_menu_id,
            state.story_vars.decls() == before_effects.story_vars.decls(),
            only_story_fields_changed(old(state), state),
        decreases next_stage.on_advance_effects.len() - e,
    {
        apply_advance_effect(state, &next_stage.on_advance_effects[e]);
        proof {
            let prev = et;
            et = et.push(*state);
            assert forall|i: int| 0 <= i < e + 1 implies #[trigger] effect_applied(et[i], et[i + 1], next_stage.on_advance_effects@[i]) by {
                if i < e {
                    assert(et[i] == prev[i] && et[i + 1] == prev[i + 1]);
                }
            }
        }
        e = e + 1;
    }
    assert(effects_chain(next_stage.on_advance_effects@, et));
    let ghost after_effects = *state;
    if next_stage.end_act && content.act_cast.len() > 0 {
        state.stages_completed = state.stages_completed + 1;
        state.phase = GamePhase::ActEnded;
    }
    if next_stage.end_game {
        state.stages_completed = state.stages_completed + 1;
        state.phase = GamePhase::GameEnded;
    }
    proof {
        assert(et.last() == after_effects);
        assert(!screens_film(old(state), content, next_stage));
    }
}


/// Whether `i` is the index of the first stage with the given id.
pub open spec fn is_first_stage(stages: Seq<BeatDefinition>, id: Seq<char>, i: int) -> bool {
    &&& 0 <= i < stages.len()
    &&& stages[i].id@ == id
    &&& forall|j: int| 0 <= j < i ==> stages[j].id@ != id
}

/// The first stage with the given id.
pub open spec fn stage_def(stages: Seq<BeatDefinition>, id: Seq<char>) -> BeatDefinition {
    stages[choose|i: int| is_first_stage(stages, id, i)]
}

/// The ids of the stages that the first stage with the given id leads to.
pub open spec fn next_ids_of(stages: Seq<BeatDefinition>, id: Seq<char>) -> Seq<Seq<char>> {
    stage_def(stages, id).next_stage_ids@.map_values(|s: String| s@)
}

pub proof fn lemma_stage_def(stages: Seq<BeatDefinition>, id: Seq<char>, k: int)
    requires
        is_first_stage(stages, id, k),
    ensures
        stage_def(stages, id) == stages[k],
        has_stage(stages, id),
{
    let c = choose|i: int| is_first_stage(stages, id, i);
    assert(is_first_stage(stages, id, c));
    if c < k {
        assert(stages[c].id@ == id);
    } else if c > k {
        assert(stages[k].id@ == id);
    }
}

/// The stages active after the first `n` active stages have been weighed:
/// each one that did not advance, and every stage that each one that did
/// advance leads to.
pub open spec fn stages_after(stages: Seq<BeatDefinition>, active: Seq<Seq<char>>, adv: Seq<bool>, n: int) -> Set<Seq<char>> {
    Set::new(|id: Seq<char>| reached_by(stages, active, adv, n, id))
}

/// Whether one of the first `n` active stages leaves `id` active: it did not
/// advance and is `id`, or it advanced and leads to `id`.
pub open spec fn reached_by(stages: Seq<BeatDefinition>, active: Seq<Seq<char>>, adv: Seq<bool>, n: int, id: Seq<char>) -> bool {
    exists|i: int| 0 <= i < n && #[trigger] leaves_active(stages, active, adv, i, id)
}

pub open spec fn leaves_active(stages: Seq<BeatDefinition>, active: Seq<Seq<char>>, adv: Seq<bool>, i: int, id: Seq<char>) -> bool {
    (!adv[i] && active[i] == id) || (adv[i] && next_ids_of(stages, active[i]).contains(id))
}

/// How many stages advanced.
pub open spec fn count_advanced(adv: Seq<bool>) -> nat
    decreases adv.len(),
{
    if adv.len() == 0 { 0 } else { count_advanced(adv.drop_last()) + if adv.last() { 1nat } else { 0nat } }
}

/// The minutes that starting the first `j` of the given next stages lets
/// pass: each defined one adds its elapsed minutes.
pub open spec fn next_elapsed(stages: Seq<BeatDefinition>, nexts: Seq<Seq<char>>, j: int) -> int
    decreases j,
{
    if j <= 0 {
        0
    } else {
        next_elapsed(stages, nexts, j - 1) + if has_stage(stages, nexts[j - 1]) { stage_def(stages, nexts[j - 1]).elapsed_minutes as int } else { 0 }
    }
}

/// The minutes that the advances among the first `i` active stages let pass:
/// each advanced stage starts its next stages.
pub open spec fn elapsed_upto(stages: Seq<BeatDefinition>, active: Seq<Seq<char>>, adv: Seq<bool>, i: int) -> int
    decreases i,
{
    if i <= 0 {
        0
    } else {
        elapsed_upto(stages, active, adv, i - 1) + if adv[i - 1] {
            next_elapsed(stages, next_ids_of(stages, active[i - 1]), next_ids_of(stages, active[i - 1]).len() as int)
        } else {
            0
        }
    }
}

proof fn lemma_elapsed_prefix(stages: Seq<BeatDefinition>, active: Seq<Seq<char>>, a: Seq<bool>, b: Seq<bool>, i: int)
    requires
        i <= a.len(),
        i <= b.len(),
        forall|q: int| 0 <= q < i ==> a[q] == b[q],
    ensures
        elapsed_upto(stages, active, a, i) == elapsed_upto(stages, active, b, i),
    decreases i,
{
    if i > 0 {
        lemma_elapsed_prefix(stages, active, a, b, i - 1);
    }
}


/// What advancing the stages on a signal did, given which of the active
/// stages advanced (`adv`, one entry per active stage, in order).
pub open spec fn advance_outcome(
    before: &WorldState,
    after: &WorldState,
    content: &ContentPack,
    signal: Seq<char>,
    adv: Seq<bool>,
    message_count: nat,
) -> bool {
    let stages = content.beats.stages@;
    let active = before.active_objective_stage_ids@.map_values(|s: String| s@);
    let result = after.active_objective_stage_ids@.map_values(|s: String| s@);
    let base = stages_after(stages, active, adv, active.len() as int);
    let required = content.settings.fallback_required_story_vars@.map_values(|s: String| s@);
    &&& adv.len() == active.len()
    // A stage advances only if it is defined and one of its candidates can
    // fire on this signal; the first active stage advances exactly when one of
    // its candidates fires on the world as it was.
    &&& forall|i: int| 0 <= i < active.len() && #[trigger] adv[i] ==>
        has_stage(stages, active[i]) && some_name_can_fire(signal, stage_def(stages, active[i]).advance_signals@)
    // A defined stage with an unconditional candidate for this very signal
    // always advances.
    &&& forall|i: int| 0 <= i < active.len() && has_stage(stages, active[i])
        && fires_unconditionally(signal, (#[trigger] stage_def(stages, active[i])).advance_signals@) ==> adv[i]
    &&& active.len() > 0 ==> adv[0] == (has_stage(stages, active[0])
        && stage_fires(before, active[0], signal, stage_def(stages, active[0]).advance_signals@))
    // The new active stages: sorted, without repeats, and exactly those that
    // stayed and those that were reached; or the fallback stage when none is
    // left and it is due.
    &&& forall|i: int, j: int| 0 <= i < j < result.len() ==> lex_lt(#[trigger] result[i], #[trigger] result[j])
    &&& if base.len() == 0 && fallback_stage(content.settings.fallback_stage_id@, required, stages, 0,
            after.phase != GamePhase::Active, after.story_vars) is Some {
        result == seq![content.settings.fallback_stage_id@]
    } else {
        result.to_set() == base
    }
    // A stage that stayed keeps its start time.
    &&& forall|i: int| 0 <= i < active.len() && !adv[i] && #[trigger] before.stage_started_minutes@.dom().contains(active[i])
        ==> after.stage_started_minutes@.dom().contains(active[i])
            && after.stage_started_minutes@[active[i]] == before.stage_started_minutes@[active[i]]
    // Time moves by the minutes of the stages started; every stage that has a
    // start time started during this signal, or kept its earlier one, and a
    // defined active stage has one.
    &&& after.current_time_minutes == before.current_time_minutes + elapsed_upto(stages, active, adv, active.len() as int)
    &&& forall|k: Seq<char>| #[trigger] after.stage_started_minutes@.dom().contains(k) ==>
        (before.current_time_minutes <= after.stage_started_minutes@[k] <= after.current_time_minutes)
        || (before.stage_started_minutes@.dom().contains(k) && after.stage_started_minutes@[k] == before.stage_started_minutes@[k])
    &&& forall|i: int| 0 <= i < result.len() && has_stage(stages, #[trigger] result[i]) ==> after.stage_started_minutes@.dom().contains(result[i])
    // Every advance counts as a completed stage; time only moves forward.
    &&& after.stages_completed >= before.stages_completed + count_advanced(adv)
    &&& after.current_time_minutes >= before.current_time_minutes
    // Nothing advanced: no narration and no time passes.
    &&& count_advanced(adv) == 0 ==> message_count == 0 && after.current_time_minutes == before.current_time_minutes
        && after.stages_completed == before.stages_completed
    // Stage-scoped story variables are cleared.
    &&& after.story_vars.decls() == before.story_vars.decls()
    &&& forall|k: Seq<char>| #[trigger] after.story_vars.vals().dom().contains(k) ==>
        !(after.story_vars.decls().dom().contains(k) && after.story_vars.decls()[k].scope == VariableScope::Stage)
}

proof fn lemma_stages_after_keep(stages: Seq<BeatDefinition>, active: Seq<Seq<char>>, adv: Seq<bool>, i: int)
    requires
        adv.len() == i,
        0 <= i < active.len(),
    ensures
        stages_after(stages, active, adv.push(false), i + 1) == stages_after(stages, active, adv, i).insert(active[i]),
{
    let a2 = adv.push(false);
    let lhs = stages_after(stages, active, a2, i + 1);
    let rhs = stages_after(stages, active, adv, i).insert(active[i]);
    assert forall|id: Seq<char>| lhs.contains(id) implies rhs.contains(id) by {
        assert(reached_by(stages, active, a2, i + 1, id));
        let j = choose|j: int| 0 <= j < i + 1 && #[trigger] leaves_active(stages, active, a2, j, id);
        if j < i {
            assert(a2[j] == adv[j]);
            assert(leaves_active(stages, active, adv, j, id));
            assert(reached_by(stages, active, adv, i, id));
        }
    }
    assert forall|id: Seq<char>| rhs.contains(id) implies lhs.contains(id) by {
        if id == active[i] {
            assert(leaves_active(stages, active, a2, i, id));
        } else {
            assert(reached_by(stages, active, adv, i, id));
            let j = choose|j: int| 0 <= j < i && #[trigger] leaves_active(stages, active, adv, j, id);
            assert(a2[j] == adv[j]);
            assert(leaves_active(stages, active, a2, j, id));
        }
        assert(reached_by(stages, active, a2, i + 1, id));
    }
    assert(lhs =~= rhs);
}

proof fn lemma_stages_after_advance(stages: Seq<BeatDefinition>, active: Seq<Seq<char>>, adv: Seq<bool>, i: int)
    requires
        adv.len() == i,
        0 <= i < active.len(),
    ensures
        stages_after(stages, active, adv.push(true), i + 1)
            == stages_after(stages, active, adv, i).union(next_ids_of(stages, active[i]).to_set()),
{
    let a2 = adv.push(true);
    let lhs = stages_after(stages, active, a2, i + 1);
    let rhs = stages_after(stages, active, adv, i).union(next_ids_of(stages, active[i]).to_set());
    assert forall|id: Seq<char>| lhs.contains(id) implies rhs.contains(id) by {
        assert(reached_by(stages, active, a2, i + 1, id));
        let j = choose|j: int| 0 <= j < i + 1 && #[trigger] leaves_active(stages, active, a2, j, id);
        if j < i {
            assert(a2[j] == adv[j]);
            assert(leaves_active(stages, active, adv, j, id));
            assert(reached_by(stages, active, adv, i, id));
        } else {
            assert(next_ids_of(stages, active[i]).contains(id));
        }
    }
    assert forall|id: Seq<char>| rhs.contains(id) implies lhs.contains(id) by {
        if next_ids_of(stages, active[i]).to_set().contains(id) {
            assert(leaves_active(stages, active, a2, i, id));
        } else {
            assert(reached_by(stages, active, adv, i, id));
            let j = choose|j: int| 0 <= j < i && #[trigger] leaves_active(stages, active, adv, j, id);
            assert(a2[j] == adv[j]);
            assert(leaves_active(stages, active, a2, j, id));
        }
        assert(reached_by(stages, active, a2, i + 1, id));
    }
    assert(lhs =~= rhs);
}

/// Whether the clock and the count of completed stages can take `k` more
/// signals in a row without overflowing: each signal advances at most every
/// active stage, lets at most the longest stage time pass for each stage it
/// reaches, and leaves at most as many stages active as it reaches (or the
/// fallback).
pub open spec fn room_for_signals(time: int, completed: int, active: int, m: int, e: int, k: nat) -> bool
    decreases k,
{
    k == 0 || {
        &&& time + active * (m * e) <= u32::MAX
        &&& completed + active * (1 + 2 * m) <= usize::MAX
        &&& room_for_signals(time + active * (m * e), completed + active * (1 + 2 * m), active * (1 + m) + 1, m, e, (k - 1) as nat)
    }
}

pub open spec fn signal_headroom(state: &WorldState, content: &ContentPack, k: nat) -> bool {
    room_for_signals(state.current_time_minutes as int, state.stages_completed as int, state.active_objective_stage_ids.len() as int,
        max_next_len(content.beats.stages@) as int, max_elapsed(content.beats.stages@) as int, k)
}

/// Room for `k` signals leaves room for fewer.
pub proof fn lemma_room_fewer(t: int, c: int, a: int, m: int, e: int, k: nat, j: nat)
    requires
        room_for_signals(t, c, a, m, e, k),
        j <= k,
    ensures
        room_for_signals(t, c, a, m, e, j),
    decreases j,
{
    if j > 0 {
        lemma_room_fewer(t + a * (m * e), c + a * (1 + 2 * m), a * (1 + m) + 1, m, e, (k - 1) as nat, (j - 1) as nat);
    }
}

/// Fewer minutes, fewer completed stages and fewer active stages leave at
/// least as much room.
pub proof fn lemma_room_monotone(t1: int, c1: int, a1: int, t2: int, c2: int, a2: int, m: int, e: int, k: nat)
    requires
        room_for_signals(t1, c1, a1, m, e, k),
        t2 <= t1,
        c2 <= c1,
        0 <= a2 <= a1,
        m >= 0,
        e >= 0,
    ensures
        room_for_signals(t2, c2, a2, m, e, k),
    decreases k,
{
    if k > 0 {
        assert(a2 * (m * e) <= a1 * (m * e)) by (nonlinear_arith) requires 0 <= a2 <= a1, m >= 0, e >= 0;
        assert(a2 * (1 + 2 * m) <= a1 * (1 + 2 * m)) by (nonlinear_arith) requires 0 <= a2 <= a1, m >= 0;
        assert(a2 * (1 + m) <= a1 * (1 + m)) by (nonlinear_arith) requires 0 <= a2 <= a1, m >= 0;
        lemma_room_monotone(t1 + a1 * (m * e), c1 + a1 * (1 + 2 * m), a1 * (1 + m) + 1,
            t2 + a2 * (m * e), c2 + a2 * (1 + 2 * m), a2 * (1 + m) + 1, m, e, (k - 1) as nat);
    }
}

/// A moment while the stages are weighed: the world, the start times
/// gathered so far, and the narration told so far.
pub type AdvanceSnap = (WorldState, Map<Seq<char>, u32>, Seq<Seq<char>>);

/// Starting one next stage: a defined stage is started (see
/// `stage_activated`), an undefined one is skipped.
pub open spec fn next_step(content: &ContentPack, id: Seq<char>, b: AdvanceSnap, a: AdvanceSnap) -> bool {
    if has_stage(content.beats.stages@, id) {
        stage_activated(content, stage_def(content.beats.stages@, id), id, b.0, b.1, b.2, a.0, a.1, a.2)
    } else {
        a == b
    }
}

/// Whether `snaps` runs through starting the given next stages in order.
pub open spec fn nexts_started(content: &ContentPack, nexts: Seq<Seq<char>>, snaps: Seq<AdvanceSnap>) -> bool {
    &&& snaps.len() == nexts.len() + 1
    &&& forall|j: int| 0 <= j < nexts.len() ==> #[trigger] next_step(content, nexts[j], snaps[j], snaps[j + 1])
}

/// Weighing active stage `id` on the signal, from `b` to `a`: it fires when
/// it is defined and one of its candidates fires on the world as it is now;
/// a stage that fires counts as completed and starts its next stages in
/// order; one that does not stays, keeping its start time (or starting now).
pub open spec fn stage_weighed(content: &ContentPack, signal: Seq<char>, old_started: Map<Seq<char>, u32>, id: Seq<char>, fired: bool,
    b: AdvanceSnap, a: AdvanceSnap) -> bool {
    let stages = content.beats.stages@;
    &&& fired == (has_stage(stages, id) && stage_fires(&b.0, id, signal, stage_def(stages, id).advance_signals@))
    &&& !fired ==> a.0 == b.0 && a.2 == b.2
        && a.1 == b.1.insert(id, if old_started.dom().contains(id) { old_started[id] } else { b.0.current_time_minutes })
    &&& fired ==> exists|snaps: Seq<AdvanceSnap>| #[trigger] nexts_started(content, next_ids_of(stages, id), snaps)
        && snaps[0] == (WorldState { stages_completed: (b.0.stages_completed + 1) as usize, ..b.0 }, b.1, b.2)
        && a == snaps.last()
}

/// Whether `outer` runs through weighing every active stage of `before` in
/// order, with `adv` telling which fired.
pub open spec fn advance_trace(content: &ContentPack, before: &WorldState, signal: Seq<char>, adv: Seq<bool>, outer: Seq<AdvanceSnap>) -> bool {
    let active = before.active_objective_stage_ids@.map_values(|s: String| s@);
    &&& adv.len() == active.len()
    &&& outer.len() == active.len() + 1
    &&& outer[0] == (*before, Map::<Seq<char>, u32>::empty(), Seq::<Seq<char>>::empty())
    &&& forall|i: int| 0 <= i < active.len() ==> #[trigger] stage_weighed(content, signal, before.stage_started_minutes@, active[i], adv[i],
        outer[i], outer[i + 1])
}

/// How the weighing settles into the final world: the narration is what was
/// told, the stage-scoped story variables are cleared, the start times are
/// those gathered (with the fallback stage's, when it starts), and nothing
/// else changes but the list of active stages (see `advance_outcome`).
pub open spec fn advance_settled(content: &ContentPack, last: AdvanceSnap, after: &WorldState, messages: Seq<Seq<char>>) -> bool {
    let w = last.0;
    &&& messages == last.2
    &&& *after == (WorldState { active_objective_stage_ids: after.active_objective_stage_ids,
        stage_started_minutes: after.stage_started_minutes, story_vars: after.story_vars, ..w })
    &&& after.story_vars.decls() == w.story_vars.decls()
    &&& after.story_vars.vals() == w.story_vars.vals().remove_keys(
        Set::new(|k: Seq<char>| w.story_vars.decls().dom().contains(k) && w.story_vars.decls()[k].scope == VariableScope::Stage))
    &&& after.stage_started_minutes@ == last.1 || (after.stage_started_minutes@ == last.1.insert(content.settings.fallback_stage_id@, w.current_time_minutes)
        && after.active_objective_stage_ids@.map_values(|s: String| s@) == seq![content.settings.fallback_stage_id@])
}

/// Advances the active stages on a signal. Every active stage that one of
/// its candidate signals fires on is completed and replaced by the stages it
/// leads to, each of which is started (see `activate_next_stage`); stages
/// that do not fire stay. The new list is sorted without repeats, the
/// stage-scoped story variables are cleared, and the fallback stage starts
/// when no stage is left. Returns the narration of the started stages.
pub fn advance_objective_for_signal(state: &mut WorldState, content: &ContentPack, signal: &str) -> (messages: Vec<String>)
    requires
        old(state).wf(),
        content.wf(),
        signal_headroom(old(state), content, 1),
    ensures
        final(state).wf(),
        only_story_fields_changed(old(state), final(state)),
        exists|adv: Seq<bool>| advance_outcome(old(state), final(state), content, signal@, adv, messages@.len()),
        exists|adv: Seq<bool>, outer: Seq<AdvanceSnap>| #[trigger] advance_trace(content, old(state), signal@, adv, outer)
            && advance_outcome(old(state), final(state), content, signal@, adv, messages@.len())
            && advance_settled(content, outer.last(), final(state), messages@.map_values(|s: String| s@)),
        forall|k: nat| signal_headroom(old(state), content, k + 1) ==> #[trigger] signal_headroom(final(state), content, k),
{
    let ghost stages = content.beats.stages@;
    let ghost m = max_next_len(stages);
    let ghost e = max_elapsed(stages);
    let ghost per_time = m * e;
    let ghost per_count = 1 + 2 * m;
    let ghost active = old(state).active_objective_stage_ids@.map_values(|s: String| s@);
    let current_ids = state.active_objective_stage_ids.clone();
    assert(current_ids@.map_values(|s: String| s@) =~= active) by {
        assert forall|i: int| 0 <= i < current_ids@.len() implies current_ids@[i]@ == old(state).active_objective_stage_ids@[i]@ by {}
    }
    let n = current_ids.len();
    let mut messages: Vec<String> = Vec::new();
    let mut reached = StrSet::new();
    let mut next_started: StrMap<u32> = StrMap::new();
    let ghost mut adv: Seq<bool> = Seq::empty();
    let ghost mut outer: Seq<AdvanceSnap> = seq![(*old(state), Map::<Seq<char>, u32>::empty(), Seq::<Seq<char>>::empty())];
    let ghost mut first_state = *old(state);
    assert(next_started@ =~= Map::<Seq<char>, u32>::empty());
    assert(messages@.map_values(|s: String| s@) =~= Seq::<Seq<char>>::empty());
    proof {
        assert(stages_after(stages, active, adv, 0) =~= Set::<Seq<char>>::empty());
        assert(0 * per_time == 0) by (nonlinear_arith);
        assert(0 * per_count == 0) by (nonlinear_arith);
        assert(0 * (1 + m) == 0) by (nonlinear_arith);
        assert(n * per_time >= 0) by (nonlinear_arith) requires per_time >= 0;
        assert(n * per_count >= 0) by (nonlinear_arith) requires per_count >= 0;
    }
    let mut i: usize = 0;
    while i < n
        invariant
            state.wf(),
            content.wf(),
            stages == content.beats.stages@,
            m == max_next_len(stages),
            e == max_elapsed(stages),
            per_time == m * e,
            per_count == 1 + 2 * m,
            n == current_ids.len(),
            n == active.len(),
            current_ids@.map_values(|s: String| s@) == active,
            active == old(state).active_objective_stage_ids@.map_values(|s: String| s@),
            i <= n,
            adv.len() == i,
            reached.wf(),
            next_started.wf(),
            reached@ == stages_after(stages, active, adv, i as int),
            reached@.finite(),
            reached@.len() <= i * (1 + m),
            state.current_time_minutes <= old(state).current_time_minutes + i * per_time,
            state.stages_completed <= old(state).stages_completed + i * per_count,
            state.current_time_minutes + (n - i) * per_time <= u32::MAX,
            state.stages_completed + (n - i) * per_count <= usize::MAX,
            state.current_time_minutes >= old(state).current_time_minutes,
            state.stages_completed >= old(state).stages_completed + count_advanced(adv),
            count_advanced(adv) == 0 ==> messages@.len() == 0 && state.current_time_minutes == old(state).current_time_minutes
                && state.stages_completed == old(state).stages_completed,
            state.stage_started_minutes == old(state).stage_started_minutes,
            state.active_objective_stage_ids == old(state).active_objective_stage_ids,
            state.story_vars.decls() == old(state).story_vars.decls(),
            only_story_fields_changed(old(state), state),
            i == 0 ==> *state == *old(state),
            forall|j: int| 0 <= j < i && #[trigger] adv[j] ==>
                has_stage(stages, active[j]) && some_name_can_fire(signal@, stage_def(stages, active[j]).advance_signals@),
            forall|j: int| 0 <= j < i && has_stage(stages, active[j])
                && fires_unconditionally(signal@, (#[trigger] stage_def(stages, active[j])).advance_signals@) ==> adv[j],
            i > 0 ==> adv[0] == (has_stage(stages, active[0])
                && stage_fires(old(state), active[0], signal@, stage_def(stages, active[0]).advance_signals@)),
            forall|j: int| 0 <= j < i && !adv[j] && #[trigger] old(state).stage_started_minutes@.dom().contains(active[j])
                ==> next_started@.dom().contains(active[j]) && next_started@[active[j]] == old(state).stage_started_minutes@[active[j]],
            state.current_time_minutes == old(state).current_time_minutes + elapsed_upto(stages, active, adv, i as int),
            outer.len() == i + 1,
            outer[0] == (*old(state), Map::<Seq<char>, u32>::empty(), Seq::<Seq<char>>::empty()),
            outer[i as int] == (*state, next_started@, messages@.map_values(|s: String| s@)),
            forall|j: int| 0 <= j < i ==> #[trigger] stage_weighed(content, signal@, old(state).stage_started_minutes@, active[j], adv[j],
                outer[j], outer[j + 1]),
            forall|k: Seq<char>| #[trigger] next_started@.dom().contains(k) ==>
                (old(state).current_time_minutes <= next_started@[k] <= state.current_time_minutes)
                || (old(state).stage_started_minutes@.dom().contains(k) && next_started@[k] == old(state).stage_started_minutes@[k]),
            forall|x: Seq<char>| #[trigger] reached@.contains(x) && has_stage(stages, x) ==> next_started@.dom().contains(x),
        decreases n - i,
    {
        let current_stage_id = &current_ids[i];
        assert(current_stage_id@ == active[i as int]);
        proof {
            assert((n - i) * per_time == per_time + (n - i - 1) * per_time) by (nonlinear_arith);
            assert((n - i) * per_count == per_count + (n - i - 1) * per_count) by (nonlinear_arith);
            assert(0 <= (n - i - 1) * per_time) by (nonlinear_arith) requires n - i - 1 >= 0, per_time >= 0;
            assert((i + 1) * per_time == i * per_time + per_time) by (nonlinear_arith);
            assert((i + 1) * per_count == i * per_count + per_count) by (nonlinear_arith);
            assert((i + 1) * (1 + m) == i * (1 + m) + (1 + m)) by (nonlinear_arith);
            assert(per_time >= 0) by (nonlinear_arith) requires per_time == m * e, m >= 0, e >= 0;
        }
        let current_started = match state.stage_started_minutes.get_str(current_stage_id.as_str()) {
            Some(m) => *m,
            None => state.current_time_minutes,
        };
        let found = find_stage(content.beats.stages.as_slice(), current_stage_id.as_str());
        let fires = match found {
            Some(k) => {
                proof { lemma_stage_def(stages, active[i as int], k as int); }
                any_signal_fires(state, current_stage_id.as_str(), signal, content.beats.stages[k].advance_signals.as_slice())
            },
            None => false,
        };
        if !fires {
            next_started.insert_str(current_stage_id.as_str(), current_started);
            reached.insert(chars_of(current_stage_id.as_str()));
            assert(reached@.len() <= i * (1 + m) + 1);
            proof {
                lemma_stages_after_keep(stages, active, adv, i as int);
                let prev = adv;
                adv = adv.push(false);
                assert(adv.drop_last() =~= prev);
                lemma_elapsed_prefix(stages, active, prev, adv, i as int);
                let prev_outer = outer;
                outer = outer.push((*state, next_started@, messages@.map_values(|s: String| s@)));
                if found is Some {
                    lemma_stage_def(stages, active[i as int], found->0 as int);
                }
                assert(stage_weighed(content, signal@, old(state).stage_started_minutes@, active[i as int], adv[i as int],
                    outer[i as int], outer[i + 1]));
                assert forall|j: int| 0 <= j < i + 1 implies #[trigger] stage_weighed(content, signal@, old(state).stage_started_minutes@,
                    active[j], adv[j], outer[j], outer[j + 1]) by {
                    if j < i {
                        assert(outer[j] == prev_outer[j] && outer[j + 1] == prev_outer[j + 1] && adv[j] == prev[j]);
                    }
                }
            }
            i = i + 1;
            continue;
        }
        let k = match found { Some(k) => k, None => 0 };
        let stage = &content.beats.stages[k];
        proof { lemma_max_bounds(stages, k as int); }
        let ghost b0 = *state;
        state.stages_completed = state.stages_completed + 1;
        let ghost before_next = *state;
        let ghost mut snaps: Seq<AdvanceSnap> = seq![(*state, next_started@, messages@.map_values(|s: String| s@))];
        let ghost reached_before = reached@;
        let ghost nexts = stage.next_stage_ids@.map_values(|s: String| s@);
        let ghost msgs_before = messages@.len();
        let mut j: usize = 0;
        #[verifier::loop_isolation(false)]
        while j < stage.next_stage_ids.len()
            invariant
                state.wf(),
                content.wf(),
                stages == content.beats.stages@,
                stage == &content.beats.stages@[k as int],
                k < stages.len(),
                stage.next_stage_ids.len() <= m,
                e == max_elapsed(stages),
                j <= stage.next_stage_ids.len(),
                reached.wf(),
                next_started.wf(),
                nexts == stage.next_stage_ids@.map_values(|s: String| s@),
                reached@ == reached_before.union(nexts.take(j as int).to_set()),
                reached@.finite(),
                reached_before.finite(),
                reached@.len() <= reached_before.len() + j,
                state.current_time_minutes <= before_next.current_time_minutes + j * e,
                state.stages_completed <= before_next.stages_completed + 2 * j,
                state.current_time_minutes + (m - j) * e + (n - i - 1) * per_time <= u32::MAX,
                state.stages_completed + 2 * (m - j) + (n - i - 1) * per_count <= usize::MAX,
                state.current_time_minutes >= before_next.current_time_minutes,
                state.stages_completed >= before_next.stages_completed,
                state.stage_started_minutes == old(state).stage_started_minutes,
                state.active_objective_stage_ids == old(state).active_objective_stage_ids,
                state.story_vars.decls() == old(state).story_vars.decls(),
                only_story_fields_changed(old(state), state),
                forall|q: int| 0 <= q < i && !adv[q] && #[trigger] old(state).stage_started_minutes@.dom().contains(active[q])
                    ==> next_started@.dom().contains(active[q]) && next_started@[active[q]] == old(state).stage_started_minutes@[active[q]],
                state.current_time_minutes == before_next.current_time_minutes + next_elapsed(stages, nexts, j as int),
                forall|k: Seq<char>| #[trigger] next_started@.dom().contains(k) ==>
                    (old(state).current_time_minutes <= next_started@[k] <= state.current_time_minutes)
                    || (old(state).stage_started_minutes@.dom().contains(k) && next_started@[k] == old(state).stage_started_minutes@[k]),
                forall|x: Seq<char>| #[trigger] reached@.contains(x) && has_stage(stages, x) ==> next_started@.dom().contains(x),
                snaps.len() == j + 1,
                snaps[0] == (WorldState { stages_completed: (b0.stages_completed + 1) as usize, ..b0 }, outer[i as int].1, outer[i as int].2),
                snaps[j as int] == (*state, next_started@, messages@.map_values(|s: String| s@)),
                forall|q: int| 0 <= q < j ==> #[trigger] next_step(content, nexts[q], snaps[q], snaps[q + 1]),
            decreases stage.next_stage_ids.len() - j,
        {
            let next_stage_id = &stage.next_stage_ids[j];
            reached.insert(chars_of(next_stage_id.as_str()));
            proof {
                assert(nexts.take(j + 1) =~= nexts.take(j as int).push(next_stage_id@));
                assert forall|x: Seq<char>| #[trigger] nexts.take(j + 1).contains(x) <==> nexts.take(j as int).contains(x) || x == next_stage_id@ by {
                    if nexts.take(j + 1).contains(x) {
                        let w = choose|w: int| 0 <= w < j + 1 && #[trigger] nexts.take(j + 1)[w] == x;
                        if w < j {
                            assert(nexts.take(j as int)[w] == x);
                        }
                    }
                    if nexts.take(j as int).contains(x) {
                        let w = choose|w: int| 0 <= w < j && #[trigger] nexts.take(j as int)[w] == x;
                        assert(nexts.take(j + 1)[w] == x);
                    }
                    if x == next_stage_id@ {
                        assert(nexts.take(j + 1)[j as int] == x);
                    }
                }
                assert(reached@ =~= reached_before.union(nexts.take(j + 1).to_set()));
                assert((m - j) * e == e + (m - j - 1) * e) by (nonlinear_arith);
                assert((j + 1) * e == j * e + e) by (nonlinear_arith);
                assert(0 <= (m - j - 1) * e) by (nonlinear_arith) requires m - j - 1 >= 0, e >= 0;
            }
            assert(nexts[j as int] == next_stage_id@);
            match find_stage(content.beats.stages.as_slice(), next_stage_id.as_str()) {
                Some(nk) => {
                    proof {
                        lemma_max_bounds(stages, nk as int);
                        lemma_stage_def(stages, next_stage_id@, nk as int);
                    }
                    activate_next_stage(state, content, &content.beats.stages[nk], next_stage_id.as_str(), &mut next_started, &mut messages);
                },
                None => {},
            }
            proof {
                let prev_snaps = snaps;
                snaps = snaps.push((*state, next_started@, messages@.map_values(|s: String| s@)));
                assert(next_step(content, nexts[j as int], snaps[j as int], snaps[j + 1]));
                assert forall|q: int| 0 <= q < j + 1 implies #[trigger] next_step(content, nexts[q], snaps[q], snaps[q + 1]) by {
                    if q < j {
                        assert(snaps[q] == prev_snaps[q] && snaps[q + 1] == prev_snaps[q + 1]);
                    }
                }
            }
            j = j + 1;
        }
        proof {
            assert(nexts.take(stage.next_stage_ids.len() as int) =~= nexts);
            lemma_stage_def(stages, active[i as int], k as int);
            lemma_stages_after_advance(stages, active, adv, i as int);
            let prev = adv;
            adv = adv.push(true);
            assert(adv.drop_last() =~= prev);
            lemma_elapsed_prefix(stages, active, prev, adv, i as int);
            assert(nexts == next_ids_of(stages, active[i as int]));
            assert(nexts_started(content, next_ids_of(stages, active[i as int]), snaps));
            let prev_outer = outer;
            outer = outer.push((*state, next_started@, messages@.map_values(|s: String| s@)));
            assert(stage_weighed(content, signal@, old(state).stage_started_minutes@, active[i as int], adv[i as int],
                outer[i as int], outer[i + 1]));
            assert forall|jj: int| 0 <= jj < i + 1 implies #[trigger] stage_weighed(content, signal@, old(state).stage_started_minutes@,
                active[jj], adv[jj], outer[jj], outer[jj + 1]) by {
                if jj < i {
                    assert(outer[jj] == prev_outer[jj] && outer[jj + 1] == prev_outer[jj + 1] && adv[jj] == prev[jj]);
                }
            }
            assert(0 <= (m - stage.next_stage_ids.len()) * e) by (nonlinear_arith)
                requires m - stage.next_stage_ids.len() >= 0, e >= 0;
            assert(stage.next_stage_ids.len() * e <= m * e) by (nonlinear_arith)
                requires stage.next_stage_ids.len() <= m, e >= 0;
        }
        i = i + 1;
    }
    proof { reached.lemma_contents(); }
    let ghost loop_end = *state;
    assert(advance_trace(content, old(state), signal@, adv, outer));
    assert(outer.last() == (loop_end, next_started@, messages@.map_values(|s: String| s@)));
    let count = reached.len();
    let mut sorted: Vec<String> = Vec::new();
    let mut q: usize = 0;
    while q < count
        invariant
            reached.wf(),
            count == reached.key_seq().len(),
            q <= count,
            sorted@.map_values(|s: String| s@) == reached.key_seq().take(q as int),
        decreases count - q,
    {
        let ghost before = sorted@;
        let item = string_from_chars(reached.key_at(q));
        sorted.push(item);
        proof {
            lemma_map_values_push(before, item, |s: String| s@);
            assert(sorted@.map_values(|s: String| s@) =~= reached.key_seq().take(q + 1));
        }
        q = q + 1;
    }
    proof {
        assert(reached.key_seq().take(count as int) =~= reached.key_seq());
        reached.lemma_contents();
        assert(reached.key_seq().to_set() =~= reached@) by {
            assert forall|x: Seq<char>| reached@.contains(x) implies reached.key_seq().contains(x) by {
                let w = choose|w: int| 0 <= w < reached.key_seq().len() && reached.key_seq()[w] == x;
            }
        }
    }
    state.active_objective_stage_ids = sorted;
    state.stage_started_minutes = next_started;
    state.story_vars.clear_scoped(VariableScope::Stage);
    let ghost before_fallback = *state;
    let fallback = fallback_stage_to_activate(
        content.settings.fallback_stage_id.as_str(),
        content.settings.fallback_required_story_vars.as_slice(),
        content.beats.stages.as_slice(),
        state.active_objective_stage_ids.as_slice(),
        !(state.phase == GamePhase::Active),
        &state.story_vars,
    );
    let ghost fb = fallback;
    let ghost started_before_fallback = state.stage_started_minutes@;
    assert(forall|x: Seq<char>| #[trigger] reached@.contains(x) && has_stage(stages, x) ==> started_before_fallback.dom().contains(x));
    match fallback {
        Some(stage_id) => {
            state.active_objective_stage_ids.push(stage_id.clone());
            state.stage_started_minutes.insert_str(stage_id.as_str(), state.current_time_minutes);
            proof {
                assert(before_fallback.active_objective_stage_ids@.len() == 0);
                assert forall|i: int| 0 <= i < active.len() && !adv[i] implies false by {
                    assert(leaves_active(stages, active, adv, i, active[i]));
                    assert(reached_by(stages, active, adv, n as int, active[i]));
                    assert(reached@.contains(active[i]));
                }
                assert(state.active_objective_stage_ids@.map_values(|s: String| s@) =~= seq![content.settings.fallback_stage_id@]);
            }
        },
        None => {},
    }
    proof {
        let result = state.active_objective_stage_ids@.map_values(|s: String| s@);
        assert(state.current_time_minutes == before_fallback.current_time_minutes);
        assert forall|k: Seq<char>| #[trigger] state.stage_started_minutes@.dom().contains(k) implies
            (old(state).current_time_minutes <= state.stage_started_minutes@[k] <= state.current_time_minutes)
            || (old(state).stage_started_minutes@.dom().contains(k) && state.stage_started_minutes@[k] == old(state).stage_started_minutes@[k]) by {
            if started_before_fallback.dom().contains(k) && !(fb is Some && fb->0@ == k) {
                assert(state.stage_started_minutes@[k] == started_before_fallback[k]);
            }
        }
        assert forall|q: int| 0 <= q < result.len() && has_stage(stages, #[trigger] result[q])
            implies state.stage_started_minutes@.dom().contains(result[q]) by {
            if fb is None {
                assert(result =~= before_fallback.active_objective_stage_ids@.map_values(|s: String| s@));
                assert(result.to_set().contains(result[q]));
                assert(reached@.contains(result[q]));
            }
        }
    }
    assert(advance_outcome(old(state), state, content, signal@, adv, messages@.len()));
    proof {
        assert(state.current_time_minutes == loop_end.current_time_minutes);
        assert(advance_settled(content, outer.last(), state, messages@.map_values(|s: String| s@)));
    }
    proof {
        assert(n * (1 + m) >= 0) by (nonlinear_arith) requires m >= 0;
        assert forall|k: nat| signal_headroom(old(state), content, k + 1) implies #[trigger] signal_headroom(state, content, k) by {
            let t0 = old(state).current_time_minutes as int;
            let c0 = old(state).stages_completed as int;
            let a0 = n as int;
            assert(room_for_signals(t0 + a0 * (m * e), c0 + a0 * (1 + 2 * m), a0 * (1 + m) + 1, m as int, e as int, k));
            lemma_room_monotone(t0 + a0 * (m * e), c0 + a0 * (1 + 2 * m), a0 * (1 + m) + 1,
                state.current_time_minutes as int, state.stages_completed as int, state.active_objective_stage_ids.len() as int,
                m as int, e as int, k);
        }
    }
    messages
}


proof fn lemma_none_advanced(adv: Seq<bool>)
    requires
        forall|i: int| 0 <= i < adv.len() ==> !adv[i],
    ensures
        count_advanced(adv) == 0,
    decreases adv.len(),
{
    if adv.len() > 0 {
        lemma_none_advanced(adv.drop_last());
    }
}

/// When the stages started on a signal let no time pass, a stage that is
/// active afterwards and had no start time before starts at the current
/// time.
pub proof fn law_reached_stage_starts_now(
    before: &WorldState,
    after: &WorldState,
    content: &ContentPack,
    signal: Seq<char>,
    adv: Seq<bool>,
    message_count: nat,
    i: int,
)
    requires
        advance_outcome(before, after, content, signal, adv, message_count),
        elapsed_upto(content.beats.stages@, before.active_objective_stage_ids@.map_values(|s: String| s@), adv,
            before.active_objective_stage_ids.len() as int) == 0,
        0 <= i < after.active_objective_stage_ids.len(),
        has_stage(content.beats.stages@, after.active_objective_stage_ids@[i]@),
        !before.stage_started_minutes@.dom().contains(after.active_objective_stage_ids@[i]@),
    ensures
        after.stage_started_minutes@.dom().contains(after.active_objective_stage_ids@[i]@),
        after.stage_started_minutes@[after.active_objective_stage_ids@[i]@] == before.current_time_minutes,
{
    let result = after.active_objective_stage_ids@.map_values(|s: String| s@);
    assert(result[i] == after.active_objective_stage_ids@[i]@);
}

proof fn lemma_quiet_prefix(content: &ContentPack, before: &WorldState, signal: Seq<char>, adv: Seq<bool>, outer: Seq<AdvanceSnap>, i: int)
    requires
        advance_trace(content, before, signal, adv, outer),
        forall|j: int| 0 <= j < adv.len() ==> !adv[j],
        0 <= i < outer.len(),
    ensures
        outer[i].0 == *before,
        outer[i].2 == Seq::<Seq<char>>::empty(),
    decreases i,
{
    if i > 0 {
        lemma_quiet_prefix(content, before, signal, adv, outer, i - 1);
        let active = before.active_objective_stage_ids@.map_values(|s: String| s@);
        let k = i - 1;
        assert(stage_weighed(content, signal, before.stage_started_minutes@, active[k], adv[k], outer[k], outer[k + 1]));
        assert(k + 1 == i);
    }
}

/// A signal on which no active stage fires tells nothing, and changes the
/// world only in its stage bookkeeping: the list of active stages, their
/// start times, and the clearing of stage-scoped story variables. Every
/// other part (placements, stats, menu, projector, clock, phase) stays.
pub proof fn law_quiet_signal_changes_only_stage_bookkeeping(content: &ContentPack, before: &WorldState, after: &WorldState,
    signal: Seq<char>, adv: Seq<bool>, outer: Seq<AdvanceSnap>, messages: Seq<Seq<char>>)
    requires
        advance_trace(content, before, signal, adv, outer),
        advance_settled(content, outer.last(), after, messages),
        forall|j: int| 0 <= j < adv.len() ==> !adv[j],
    ensures
        messages.len() == 0,
        *after == (WorldState { active_objective_stage_ids: after.active_objective_stage_ids,
            stage_started_minutes: after.stage_started_minutes, story_vars: after.story_vars, ..*before }),
        after.story_vars.decls() == before.story_vars.decls(),
        after.story_vars.vals() == before.story_vars.vals().remove_keys(
            Set::new(|k: Seq<char>| before.story_vars.decls().dom().contains(k) && before.story_vars.decls()[k].scope == VariableScope::Stage)),
{
    lemma_quiet_prefix(content, before, signal, adv, outer, outer.len() - 1);
}

/// A signal that none of the active stages can hear leaves every one of
/// them active (and no other), lets no time pass, completes nothing and
/// narrates nothing.
pub proof fn law_unheard_signal_keeps_stages(
    before: &WorldState,
    after: &WorldState,
    content: &ContentPack,
    signal: Seq<char>,
    adv: Seq<bool>,
    message_count: nat,
)
    requires
        advance_outcome(before, after, content, signal, adv, message_count),
        before.active_objective_stage_ids.len() > 0,
        forall|i: int| 0 <= i < before.active_objective_stage_ids.len() ==> !(
            has_stage(content.beats.stages@, before.active_objective_stage_ids@[i]@)
            && #[trigger] some_name_can_fire(signal, stage_def(content.beats.stages@, before.active_objective_stage_ids@[i]@).advance_signals@)),
    ensures
        after.active_objective_stage_ids@.map_values(|s: String| s@).to_set()
            == before.active_objective_stage_ids@.map_values(|s: String| s@).to_set(),
        message_count == 0,
        after.current_time_minutes == before.current_time_minutes,
        after.stages_completed == before.stages_completed,
{
    let stages = content.beats.stages@;
    let active = before.active_objective_stage_ids@.map_values(|s: String| s@);
    assert forall|i: int| 0 <= i < adv.len() implies !adv[i] by {
        if adv[i] {
            assert(has_stage(stages, active[i]) && some_name_can_fire(signal, stage_def(stages, active[i]).advance_signals@));
            assert(active[i] == before.active_objective_stage_ids@[i]@);
        }
    }
    lemma_none_advanced(adv);
    let base = stages_after(stages, active, adv, active.len() as int);
    assert(base =~= active.to_set()) by {
        assert forall|id: Seq<char>| base.contains(id) implies active.to_set().contains(id) by {
            let i = choose|i: int| 0 <= i < active.len() && #[trigger] leaves_active(stages, active, adv, i, id);
            assert(active[i] == id);
        }
        assert forall|id: Seq<char>| active.to_set().contains(id) implies base.contains(id) by {
            let i = choose|i: int| 0 <= i < active.len() && active[i] == id;
            assert(leaves_active(stages, active, adv, i, id));
        }
    }
    vstd::seq_lib::seq_to_set_is_finite(active);
    assert(active.to_set().contains(active[0]));
    vstd::set::axiom_set_contains_len(active.to_set(), active[0]);
}


/// The clock signal repeats every day.
pub proof fn law_clock_signal_is_daily(minutes: nat)
    ensures
        time_signal(minutes + 1440) == time_signal(minutes),
{
    assert(((minutes + 1440) / 60) % 24 == (minutes / 60) % 24) by (nonlinear_arith);
    assert((minutes + 1440) % 60 == minutes % 60) by (nonlinear_arith);
}


/// The longest list of next stages that any of the stages names.
fn longest_next_len(stages: &Vec<BeatDefinition>) -> (r: usize)
    ensures
        r as nat == max_next_len(stages@),
{
    let mut r: usize = 0;
    let mut i: usize = 0;
    while i < stages.len()
        invariant
            i <= stages.len(),
            r as nat == max_next_len(stages@.take(i as int)),
        decreases stages.len() - i,
    {
        assert(stages@.take(i as int + 1).drop_last() =~= stages@.take(i as int));
        assert(stages@.take(i as int + 1).last() == stages@[i as int]);
        let l = stages[i].next_stage_ids.len();
        if l > r {
            r = l;
        }
        i = i + 1;
    }
    assert(stages@.take(stages.len() as int) =~= stages@);
    r
}

/// The most minutes that any of the stages lets pass.
fn longest_elapsed(stages: &Vec<BeatDefinition>) -> (r: u32)
    ensures
        r as nat == max_elapsed(stages@),
{
    let mut r: u32 = 0;
    let mut i: usize = 0;
    while i < stages.len()
        invariant
            i <= stages.len(),
            r as nat == max_elapsed(stages@.take(i as int)),
        decreases stages.len() - i,
    {
        assert(stages@.take(i as int + 1).drop_last() =~= stages@.take(i as int));
        assert(stages@.take(i as int + 1).last() == stages@[i as int]);
        let l = stages[i].elapsed_minutes;
        if l > r {
            r = l;
        }
        i = i + 1;
    }
    assert(stages@.take(stages.len() as int) =~= stages@);
    r
}

proof fn lemma_grown_too_far(completed: int, active: int, m: int)
    requires
        completed >= 0,
        m >= 0,
        active > usize::MAX,
    ensures
        completed + active * (1 + 2 * m) > usize::MAX,
{
    assert(active * (1 + 2 * m) >= active) by (nonlinear_arith)
        requires
            active >= 0,
            m >= 0,
    ;
}

/// Whether the world can take `k` more signals in a row without its clock or
/// its count of completed stages overflowing.
pub fn has_signal_headroom(state: &WorldState, content: &ContentPack, k: u32) -> (r: bool)
    ensures
        r == signal_headroom(state, content, k as nat),
{
    let m: u128 = longest_next_len(&content.beats.stages) as u128;
    let e: u128 = longest_elapsed(&content.beats.stages) as u128;
    assert(m * e <= u128::MAX) by (nonlinear_arith)
        requires
            0 <= m <= usize::MAX,
            0 <= e <= u32::MAX,
    ;
    let me: u128 = m * e;
    let mut time: u128 = state.current_time_minutes as u128;
    let mut completed: u128 = state.stages_completed as u128;
    let mut active: u128 = state.active_objective_stage_ids.len() as u128;
    let mut j: u32 = k;
    let ghost mi = m as int;
    let ghost ei = e as int;
    while j > 0
        invariant
            m as int == max_next_len(content.beats.stages@),
            e as int == max_elapsed(content.beats.stages@),
            me as int == m * e,
            m <= usize::MAX,
            room_for_signals(time as int, completed as int, active as int, m as int, e as int, j as nat)
                == signal_headroom(state, content, k as nat),
        decreases j,
    {
        let spent = match active.checked_mul(me) {
            Some(p) => p,
            None => {
                assert(time + active * (m * e) > u32::MAX);
                return false;
            },
        };
        if time > 0xffff_ffffu128 || spent > 0xffff_ffffu128 - time {
            return false;
        }
        let per = 1 + 2 * m;
        let done = match active.checked_mul(per) {
            Some(p) => p,
            None => {
                assert(completed + active * (1 + 2 * m) > usize::MAX);
                return false;
            },
        };
        if completed > usize::MAX as u128 || done > usize::MAX as u128 - completed {
            return false;
        }
        if j == 1 {
            assert(room_for_signals(time + active * (m * e), completed + active * (1 + 2 * m), active * (1 + m) + 1,
                m as int, e as int, 0nat));
            return true;
        }
        let grown = match active.checked_mul(1 + m) {
            Some(g) => if g < u128::MAX { Some(g + 1) } else { None },
            None => None,
        };
        match grown {
            Some(g) => {
                time = time + spent;
                completed = completed + done;
                active = g;
                j = j - 1;
            },
            None => {
                proof {
                    let next_time = time + active * (m * e);
                    let next_done = completed + active * (1 + 2 * m);
                    let next_active = active * (1 + m) + 1;
                    lemma_grown_too_far(next_done, next_active, m as int);
                    assert(!room_for_signals(next_time, next_done, next_active, m as int, e as int, (j - 1) as nat));
                }
                return false;
            },
        }
    }
    true
}

/// A numeric advance condition holds exactly as the numbers compare:
/// `less_than` strictly below the expected number, `lte` at or below it,
/// `greater_than` strictly above, `gte` at or above, `equal` on it and
/// `not_equal` off it. A value at the limit passes `lte` and `gte` but
/// neither strict comparison.
pub proof fn law_numeric_conditions_compare(state: &WorldState, cond: AdvanceCondition, a: int, b: i64)
    requires
        condition_number(state, path_segments(cond.path@)) == Some(a),
        cond.value == ConditionValue::Number(b),
    ensures
        cond.operator@ == "less_than"@ ==> (condition_holds(state, cond) <==> a < b),
        cond.operator@ == "lte"@ ==> (condition_holds(state, cond) <==> a <= b),
        cond.operator@ == "greater_than"@ ==> (condition_holds(state, cond) <==> a > b),
        cond.operator@ == "gte"@ ==> (condition_holds(state, cond) <==> a >= b),
        cond.operator@ == "equal"@ ==> (condition_holds(state, cond) <==> a == b),
        cond.operator@ == "not_equal"@ ==> (condition_holds(state, cond) <==> a != b),
{
    reveal_strlit("equal");
    reveal_strlit("not_equal");
    reveal_strlit("greater_than");
    reveal_strlit("less_than");
    reveal_strlit("gte");
    reveal_strlit("lte");
    let e = "equal"@;
    let ne = "not_equal"@;
    let gt = "greater_than"@;
    let lt = "less_than"@;
    let ge = "gte"@;
    let le = "lte"@;
    assert(lt.len() != e.len() && lt[0] != ne[0] && lt.len() != gt.len());
    assert(le.len() != e.len() && le.len() != ne.len() && le.len() != gt.len() && le.len() != lt.len() && le[0] != ge[0]);
    assert(gt.len() != e.len() && gt.len() != ne.len());
    assert(ge.len() != e.len() && ge.len() != ne.len() && ge.len() != gt.len() && ge.len() != lt.len());
    assert(lt != e && lt != ne && lt != gt);
    assert(le != e && le != ne && le != gt && le != lt && le != ge);
    assert(gt != e && gt != ne);
    assert(ge != e && ge != ne && ge != gt && ge != lt);
    assert(e.len() != ne.len());
    assert(e != ne);
}

/// On the same path and expected number, exactly one of `less_than` and
/// `gte` holds, and exactly one of `greater_than` and `lte`.
pub proof fn law_strict_and_loose_comparisons_split(state: &WorldState, below: AdvanceCondition, at_or_above: AdvanceCondition,
    above: AdvanceCondition, at_or_below: AdvanceCondition, a: int, b: i64)
    requires
        condition_number(state, path_segments(below.path@)) == Some(a),
        below.path@ == at_or_above.path@,
        below.path@ == above.path@,
        below.path@ == at_or_below.path@,
        below.value == ConditionValue::Number(b),
        at_or_above.value == ConditionValue::Number(b),
        above.value == ConditionValue::Number(b),
        at_or_below.value == ConditionValue::Number(b),
        below.operator@ == "less_than"@,
        at_or_above.operator@ == "gte"@,
        above.operator@ == "greater_than"@,
        at_or_below.operator@ == "lte"@,
    ensures
        condition_holds(state, below) != condition_holds(state, at_or_above),
        condition_holds(state, above) != condition_holds(state, at_or_below),
        a == b ==> !condition_holds(state, below) && !condition_holds(state, above),
{
    law_numeric_conditions_compare(state, below, a, b);
    law_numeric_conditions_compare(state, at_or_above, a, b);
    law_numeric_conditions_compare(state, above, a, b);
    law_numeric_conditions_compare(state, at_or_below, a, b);
}

/// A condition path `<a>.<b>.<c>` (no dots inside the parts) names an
/// actor's stored stat when it starts with `actor_stats`: the condition reads
/// exactly the value stored for actor `b` and stat `c`; the one-part paths
/// `current_time_minutes` and `stages_completed` read the clock and the count
/// of completed stages.
pub proof fn law_condition_paths_read_the_world(state: &WorldState, actor: Seq<char>, stat: Seq<char>)
    requires
        has_no_dot(actor),
        has_no_dot(stat),
    ensures
        condition_number(state, path_segments("current_time_minutes"@)) == Some(state.current_time_minutes as int),
        condition_number(state, path_segments("stages_completed"@)) == Some(state.stages_completed as int),
        state.actor_stats@.dom().contains(actor) && state.actor_stats@[actor]@.dom().contains(stat) ==>
            condition_number(state, path_segments("actor_stats"@ + seq!['.'] + actor + seq!['.'] + stat))
                == Some(state.actor_stats@[actor]@[stat] as int),
{
    reveal_strlit("current_time_minutes");
    reveal_strlit("stages_completed");
    reveal_strlit("actor_stats");
    let t = "current_time_minutes"@;
    let c = "stages_completed"@;
    let a = "actor_stats"@;
    assert(has_no_dot(t));
    assert(has_no_dot(c));
    assert(has_no_dot(a));
    lemma_segments_no_dot(t);
    lemma_segments_no_dot(c);
    assert(t.len() != c.len());
    assert(t != c);
    assert(a.len() != t.len() && a.len() != c.len());
    assert(a != t && a != c);
    let rest = actor + seq!['.'] + stat;
    assert(a + seq!['.'] + actor + seq!['.'] + stat =~= a + seq!['.'] + rest);
    lemma_segments_split(a, rest);
    lemma_segments_split(actor, stat);
    lemma_segments_no_dot(stat);
    assert(path_segments(a + seq!['.'] + rest) =~= seq![a, actor, stat]);
}

} // verus!

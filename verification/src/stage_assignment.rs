use vstd::prelude::*;
use crate::content::{ContentPack, StageAssignmentDefinition};
use crate::reducer::beat_advance::{find_stage, has_stage, lemma_stage_def, stage_def};
use crate::reducer::observation::join_texts;
use crate::reducer::summaries::join_with;
use crate::smap::StrMap;
use crate::state::WorldState;
use crate::state::appointments::{display_actor_name, spec_display_actor_name};
use crate::text::{cat, chars_lt, chars_of, fill_template, is_blank, lex_lt, pair_views, str_eq, string_of, text_is_blank};

verus! {

/// An actor who may be placed by a stage's split, as it stands.
pub struct StageAssignmentCandidate {
    pub actor_id: String,
    pub actor_name: String,
    pub current_room_id: String,
    pub current_room_title: String,
    pub actor_stats: StrMap<i32>,
    pub pair_stats_with_initiator: StrMap<i32>,
}

/// Everything needed to decide a stage's split of the cast.
pub struct StageAssignmentRequest {
    pub stage_id: String,
    pub selection_label: String,
    pub prompt_instructions: String,
    pub initiator_actor_id: String,
    pub initiator_actor_name: String,
    pub selected_room_id: String,
    pub selected_room_title: String,
    pub remaining_room_id: String,
    pub remaining_room_title: String,
    pub beat_note: String,
    /// Hosts already bound to a room, by actor id.
    pub anchored_room_assignments: StrMap<String>,
    pub candidates: Vec<StageAssignmentCandidate>,
}

/// How strongly an actor should go to the selected room.
pub struct StageAssignmentScore {
    pub actor_id: String,
    pub selection_score: i32,
    pub rationale: String,
}

pub struct StageAssignment {
    pub assignments: Vec<StageAssignmentScore>,
}

// ------------------------------------------------------------ ranking

/// A score as values: actor id and score.
pub type ScoreView = (Seq<char>, int);

pub open spec fn score_views(v: Seq<StageAssignmentScore>) -> Seq<ScoreView> {
    v.map_values(|s: StageAssignmentScore| (s.actor_id@, s.selection_score as int))
}

/// Whether `x` ranks ahead of `e`: a higher score, or the same score and an
/// id earlier in order.
pub open spec fn ranks_before(x: ScoreView, e: ScoreView) -> bool {
    x.1 > e.1 || (x.1 == e.1 && lex_lt(x.0, e.0))
}

pub open spec fn insert_ranked(sorted: Seq<ScoreView>, x: ScoreView) -> Seq<ScoreView>
    decreases sorted.len(),
{
    if sorted.len() == 0 || !ranks_before(x, sorted.last()) {
        sorted.push(x)
    } else {
        insert_ranked(sorted.drop_last(), x).push(sorted.last())
    }
}

/// The scores ranked: highest first, ties by id.
pub open spec fn rank_scores(s: Seq<ScoreView>) -> Seq<ScoreView>
    decreases s.len(),
{
    if s.len() == 0 { s } else { insert_ranked(rank_scores(s.drop_last()), s.last()) }
}

/// How many of the first `n` scores reach the threshold.
pub open spec fn passing_count(s: Seq<ScoreView>, threshold: int, n: int) -> int
    decreases n,
{
    if n <= 0 { 0 } else { passing_count(s, threshold, n - 1) + if s[n - 1].1 >= threshold { 1int } else { 0int } }
}

pub open spec fn max_int(a: int, b: int) -> int {
    if a >= b { a } else { b }
}

pub open spec fn min_int(a: int, b: int) -> int {
    if a <= b { a } else { b }
}

/// How many are selected: those that reach the threshold, raised to the
/// minimum, held to the maximum and to how many were scored.
pub open spec fn selected_count(s: Seq<ScoreView>, config: &StageAssignmentDefinition) -> int {
    let passing = passing_count(s, config.score_threshold as int, s.len() as int);
    min_int(min_int(max_int(passing, config.min_selected_actors as int), config.max_selected_actors as int), s.len() as int)
}

/// The ids of the selected: the best ranked, as many as are selected.
pub open spec fn chosen_ids(s: Seq<ScoreView>, config: &StageAssignmentDefinition) -> Seq<Seq<char>> {
    rank_scores(s).take(selected_count(s, config)).map_values(|x: ScoreView| x.0)
}

proof fn lemma_insert_ranked_at(s: Seq<ScoreView>, x: ScoreView, k: int)
    requires
        0 <= k <= s.len(),
        k == 0 || !ranks_before(x, s[k - 1]),
        forall|j: int| k <= j < s.len() ==> ranks_before(x, s[j]),
    ensures
        insert_ranked(s, x) == s.insert(k, x),
    decreases s.len(),
{
    if s.len() == k {
        assert(s.insert(k, x) =~= s.push(x));
    } else {
        lemma_insert_ranked_at(s.drop_last(), x, k);
        assert(s.insert(k, x) =~= s.drop_last().insert(k, x).push(s.last()));
    }
}

fn ranks_ahead(x: &(String, i32), e: &(String, i32)) -> (r: bool)
    ensures
        r == ranks_before((x.0@, x.1 as int), (e.0@, e.1 as int)),
{
    x.1 > e.1 || (x.1 == e.1 && chars_lt(&chars_of(x.0.as_str()), &chars_of(e.0.as_str())))
}

pub open spec fn pair_score_views(v: Seq<(String, i32)>) -> Seq<ScoreView> {
    v.map_values(|e: (String, i32)| (e.0@, e.1 as int))
}

fn ranked_scores(assignment: &StageAssignment) -> (r: Vec<(String, i32)>)
    ensures
        pair_score_views(r@) == rank_scores(score_views(assignment.assignments@)),
{
    let ghost sv = score_views(assignment.assignments@);
    let mut out: Vec<(String, i32)> = Vec::new();
    let mut i: usize = 0;
    while i < assignment.assignments.len()
        invariant
            i <= assignment.assignments.len(),
            sv == score_views(assignment.assignments@),
            pair_score_views(out@) == rank_scores(sv.take(i as int)),
        decreases assignment.assignments.len() - i,
    {
        let s = &assignment.assignments[i];
        let x = (s.actor_id.clone(), s.selection_score);
        let ghost xv = (x.0@, x.1 as int);
        assert(sv[i as int] == xv);
        let ghost before = out@;
        let mut k: usize = out.len();
        while k > 0 && ranks_ahead(&x, &out[k - 1])
            invariant
                out@ == before,
                xv == (x.0@, x.1 as int),
                k <= out.len(),
                forall|j: int| k <= j < out.len() ==> ranks_before(xv, (out@[j].0@, out@[j].1 as int)),
            decreases k,
        {
            k = k - 1;
        }
        out.insert(k, x);
        proof {
            lemma_insert_ranked_at(pair_score_views(before), xv, k as int);
            assert(pair_score_views(out@) =~= pair_score_views(before).insert(k as int, xv));
            assert(sv.take(i as int + 1).drop_last() =~= sv.take(i as int));
            assert(sv.take(i as int + 1).last() == xv);
        }
        i = i + 1;
    }
    assert(sv.take(assignment.assignments.len() as int) =~= sv);
    out
}

fn count_selected(assignment: &StageAssignment, config: &StageAssignmentDefinition) -> (r: usize)
    ensures
        r as int == selected_count(score_views(assignment.assignments@), config),
{
    let ghost sv = score_views(assignment.assignments@);
    let mut passing: usize = 0;
    let mut i: usize = 0;
    while i < assignment.assignments.len()
        invariant
            i <= assignment.assignments.len(),
            sv == score_views(assignment.assignments@),
            passing as int == passing_count(sv, config.score_threshold as int, i as int),
            passing <= i,
        decreases assignment.assignments.len() - i,
    {
        if assignment.assignments[i].selection_score >= config.score_threshold {
            passing = passing + 1;
        }
        i = i + 1;
    }
    let a = if passing >= config.min_selected_actors { passing } else { config.min_selected_actors };
    let b = if a <= config.max_selected_actors { a } else { config.max_selected_actors };
    if b <= assignment.assignments.len() { b } else { assignment.assignments.len() }
}

// -------------------------------------------------------- preplacement

/// `x` placed into key-ordered entries: first where its key would go,
/// replacing an entry with the same key.
pub open spec fn insert_by_key(entries: Seq<(Seq<char>, Seq<char>)>, x: (Seq<char>, Seq<char>)) -> Seq<(Seq<char>, Seq<char>)>
    decreases entries.len(),
{
    if entries.len() == 0 {
        seq![x]
    } else if entries[0].0 == x.0 {
        seq![x] + entries.drop_first()
    } else if lex_lt(x.0, entries[0].0) {
        seq![x] + entries
    } else {
        seq![entries[0]] + insert_by_key(entries.drop_first(), x)
    }
}

pub open spec fn anchored_entries(request: &StageAssignmentRequest) -> Seq<(Seq<char>, Seq<char>)> {
    let m = request.anchored_room_assignments;
    Seq::new(m.key_seq().len(), |i: int| (m.key_seq()[i], m.val_seq()[i]@))
}

/// Who is already placed, in key order: the anchored hosts, and the
/// initiator in the selected room.
pub open spec fn preplaced_entries(request: &StageAssignmentRequest) -> Seq<(Seq<char>, Seq<char>)> {
    let base = anchored_entries(request);
    if request.initiator_actor_id@.len() > 0 {
        insert_by_key(base, (request.initiator_actor_id@, request.selected_room_id@))
    } else {
        base
    }
}

pub open spec fn entry_views(v: Seq<(String, String)>) -> Seq<(Seq<char>, Seq<char>)> {
    v.map_values(|e: (String, String)| (e.0@, e.1@))
}

proof fn lemma_insert_by_key_skip(base: Seq<(Seq<char>, Seq<char>)>, x: (Seq<char>, Seq<char>), i: int)
    requires
        0 <= i < base.len(),
        base[i].0 != x.0,
        !lex_lt(x.0, base[i].0),
    ensures
        insert_by_key(base.skip(i), x) == seq![base[i]] + insert_by_key(base.skip(i + 1), x),
{
    assert(base.skip(i).drop_first() =~= base.skip(i + 1));
}

fn preplaced(request: &StageAssignmentRequest) -> (r: Vec<(String, String)>)
    requires
        request.anchored_room_assignments.wf(),
    ensures
        entry_views(r@) == preplaced_entries(request),
{
    let m = &request.anchored_room_assignments;
    proof { m.lemma_contents(); }
    let ghost base = anchored_entries(request);
    let ghost x = (request.initiator_actor_id@, request.selected_room_id@);
    let want = !request.initiator_actor_id.as_str().is_empty();
    let init_chars = chars_of(request.initiator_actor_id.as_str());
    let mut placed = !want;
    let mut out: Vec<(String, String)> = Vec::new();
    assert(base.skip(0) =~= base);
    assert(entry_views(out@) + insert_by_key(base.skip(0), x) =~= insert_by_key(base, x));
    assert(entry_views(out@) + base.skip(0) =~= base);
    let mut i: usize = 0;
    while i < m.len()
        invariant
            m == &request.anchored_room_assignments,
            m.wf(),
            m.key_seq().len() == m.val_seq().len(),
            base == anchored_entries(request),
            base.len() == m.key_seq().len(),
            init_chars@ == x.0,
            x == (request.initiator_actor_id@, request.selected_room_id@),
            want == (x.0.len() > 0),
            i <= base.len(),
            !want ==> placed,
            !placed ==> entry_views(out@) + insert_by_key(base.skip(i as int), x) == preplaced_entries(request),
            placed ==> entry_views(out@) + base.skip(i as int) == preplaced_entries(request),
        decreases base.len() - i,
    {
        let k = m.key_at(i);
        let v = m.value_at(i);
        assert(base[i as int] == (k@, v@));
        assert(base.skip(i as int)[0] == base[i as int]);
        let ghost before = entry_views(out@);
        if !placed && crate::text::chars_eq(k, &init_chars) {
            out.push((request.initiator_actor_id.clone(), request.selected_room_id.clone()));
            placed = true;
            assert(base.skip(i as int).drop_first() =~= base.skip(i as int + 1));
            assert(entry_views(out@) =~= before.push(x));
            assert(entry_views(out@) + base.skip(i as int + 1) =~= before + (seq![x] + base.skip(i as int).drop_first()));
        } else if !placed && chars_lt(&init_chars, k) {
            out.push((request.initiator_actor_id.clone(), request.selected_room_id.clone()));
            out.push((crate::text::string_from_chars(k), v.clone()));
            placed = true;
            assert(base.skip(i as int) =~= seq![base[i as int]] + base.skip(i as int + 1));
            assert(entry_views(out@) =~= before.push(x).push(base[i as int]));
            assert(entry_views(out@) + base.skip(i as int + 1) =~= before + (seq![x] + base.skip(i as int)));
        } else {
            out.push((crate::text::string_from_chars(k), v.clone()));
            assert(entry_views(out@) =~= before.push(base[i as int]));
            if !placed {
                proof { lemma_insert_by_key_skip(base, x, i as int); }
                assert(entry_views(out@) + insert_by_key(base.skip(i as int + 1), x)
                    =~= before + (seq![base[i as int]] + insert_by_key(base.skip(i as int + 1), x)));
            } else {
                assert(base.skip(i as int) =~= seq![base[i as int]] + base.skip(i as int + 1));
                assert(entry_views(out@) + base.skip(i as int + 1) =~= before + base.skip(i as int));
            }
        }
        i = i + 1;
    }
    if !placed {
        let ghost before = entry_views(out@);
        out.push((request.initiator_actor_id.clone(), request.selected_room_id.clone()));
        assert(base.skip(base.len() as int) =~= Seq::<(Seq<char>, Seq<char>)>::empty());
        assert(entry_views(out@) =~= before + insert_by_key(base.skip(i as int), x));
    } else {
        assert(base.skip(base.len() as int) =~= Seq::<(Seq<char>, Seq<char>)>::empty());
        assert(entry_views(out@) =~= entry_views(out@) + base.skip(i as int));
    }
    out
}

// ------------------------------------------------------------- commit

/// The ids among the first `n` entries placed in `room`.
pub open spec fn ids_in_room(entries: Seq<(Seq<char>, Seq<char>)>, room: Seq<char>, n: int) -> Seq<Seq<char>>
    decreases n,
{
    if n <= 0 {
        Seq::empty()
    } else {
        let prev = ids_in_room(entries, room, n - 1);
        if entries[n - 1].1 == room { prev.push(entries[n - 1].0) } else { prev }
    }
}

/// The display names of the known actors among the first `n` entries
/// placed in `room`.
pub open spec fn names_in_room(content: &ContentPack, state: &WorldState, entries: Seq<(Seq<char>, Seq<char>)>, room: Seq<char>, n: int) -> Seq<Seq<char>>
    decreases n,
{
    if n <= 0 {
        Seq::empty()
    } else {
        let prev = names_in_room(content, state, entries, room, n - 1);
        let id = entries[n - 1].0;
        if entries[n - 1].1 == room && content.has_actor(id) {
            prev.push(spec_display_actor_name(state, &content.spec_actor(id)))
        } else {
            prev
        }
    }
}

/// A candidate as values: id and name.
pub type CandView = (Seq<char>, Seq<char>);

pub open spec fn cand_views(v: Seq<StageAssignmentCandidate>) -> Seq<CandView> {
    v.map_values(|c: StageAssignmentCandidate| (c.actor_id@, c.actor_name@))
}

/// The first `n` candidates that are chosen (`want`) or not.
pub open spec fn cands_where(cands: Seq<CandView>, chosen: Seq<Seq<char>>, want: bool, n: int) -> Seq<CandView>
    decreases n,
{
    if n <= 0 {
        Seq::empty()
    } else {
        let prev = cands_where(cands, chosen, want, n - 1);
        if chosen.contains(cands[n - 1].0) == want { prev.push(cands[n - 1]) } else { prev }
    }
}

/// Each of the first `n` texts once, in the order first seen.
pub open spec fn dedup(s: Seq<Seq<char>>, n: int) -> Seq<Seq<char>>
    decreases n,
{
    if n <= 0 {
        Seq::empty()
    } else {
        let prev = dedup(s, n - 1);
        if prev.contains(s[n - 1]) { prev } else { prev.push(s[n - 1]) }
    }
}

pub open spec fn insert_text(sorted: Seq<Seq<char>>, x: Seq<char>) -> Seq<Seq<char>>
    decreases sorted.len(),
{
    if sorted.len() == 0 || !lex_lt(x, sorted.last()) {
        sorted.push(x)
    } else {
        insert_text(sorted.drop_last(), x).push(sorted.last())
    }
}

/// The texts in ascending order.
pub open spec fn sort_texts(s: Seq<Seq<char>>) -> Seq<Seq<char>>
    decreases s.len(),
{
    if s.len() == 0 { s } else { insert_text(sort_texts(s.drop_last()), s.last()) }
}

/// The story variable that records where an actor was placed.
pub open spec fn assigned_key(actor_id: Seq<char>) -> Seq<char> {
    actor_id + "_assigned_room"@
}

/// The story variable that marks a stage's split as made.
pub open spec fn flag_key(stage_id: Seq<char>) -> Seq<char> {
    "stage_assignment_applied:"@ + stage_id
}

pub open spec fn already_applied(state: &WorldState, stage_id: Seq<char>) -> bool {
    state.story_vars.vals().dom().contains(flag_key(stage_id)) && state.story_vars.vals()[flag_key(stage_id)] == "true"@
}

/// Records the room of each of the first `n` entries.
pub open spec fn write_rooms(m: Map<Seq<char>, Seq<char>>, entries: Seq<(Seq<char>, Seq<char>)>, n: int) -> Map<Seq<char>, Seq<char>>
    decreases n,
{
    if n <= 0 { m } else { write_rooms(m, entries, n - 1).insert(assigned_key(entries[n - 1].0), entries[n - 1].1) }
}

/// Records the room of each of the first `n` candidates not already
/// placed: the selected room for the chosen, the remaining one otherwise.
pub open spec fn write_candidate_rooms(m: Map<Seq<char>, Seq<char>>, cands: Seq<CandView>, placed: Seq<Seq<char>>,
    chosen: Seq<Seq<char>>, selected: Seq<char>, remaining: Seq<char>, n: int) -> Map<Seq<char>, Seq<char>>
    decreases n,
{
    if n <= 0 {
        m
    } else {
        let prev = write_candidate_rooms(m, cands, placed, chosen, selected, remaining, n - 1);
        let id = cands[n - 1].0;
        if placed.contains(id) {
            prev
        } else {
            prev.insert(assigned_key(id), if chosen.contains(id) { selected } else { remaining })
        }
    }
}

/// The ids that end up in the selected room, in order: those already
/// placed there and the chosen.
pub open spec fn selected_group(request: &StageAssignmentRequest, chosen: Seq<Seq<char>>) -> Seq<Seq<char>> {
    let pre = preplaced_entries(request);
    sort_texts(ids_in_room(pre, request.selected_room_id@, pre.len() as int) + dedup(chosen, chosen.len() as int))
}

/// The ids that end up in the remaining room, in order: those already
/// placed there and the candidates not chosen.
pub open spec fn remaining_group(request: &StageAssignmentRequest, chosen: Seq<Seq<char>>) -> Seq<Seq<char>> {
    let pre = preplaced_entries(request);
    let cands = cand_views(request.candidates@);
    sort_texts(ids_in_room(pre, request.remaining_room_id@, pre.len() as int)
        + cands_where(cands, chosen, false, cands.len() as int).map_values(|c: CandView| c.0))
}

/// The story variables once a split is made: the stage marked done, the
/// two groups recorded under their keys (where the stage names them), and
/// each placed actor's room.
pub open spec fn committed_vars(state: &WorldState, request: &StageAssignmentRequest, chosen: Seq<Seq<char>>,
    config: &StageAssignmentDefinition) -> Map<Seq<char>, Seq<char>>
{
    let pre = preplaced_entries(request);
    let cands = cand_views(request.candidates@);
    let v1 = state.story_vars.vals().insert(flag_key(request.stage_id@), "true"@);
    let v2 = if is_blank(config.group_story_var_key@) { v1 } else {
        v1.insert(config.group_story_var_key@, join_with(selected_group(request, chosen), ","@))
    };
    let v3 = if is_blank(config.remaining_group_story_var_key@) { v2 } else {
        v2.insert(config.remaining_group_story_var_key@, join_with(remaining_group(request, chosen), ","@))
    };
    let v4 = write_rooms(v3, pre, pre.len() as int);
    write_candidate_rooms(v4, cands, pre.map_values(|e: (Seq<char>, Seq<char>)| e.0), chosen,
        request.selected_room_id@, request.remaining_room_id@, cands.len() as int)
}

/// Names joined for a sentence: `a`, `a and b`, `a, b, and c`.
pub open spec fn join_with_and(items: Seq<Seq<char>>) -> Seq<char> {
    if items.len() == 0 {
        Seq::empty()
    } else if items.len() == 1 {
        items[0]
    } else if items.len() == 2 {
        items[0] + " and "@ + items[1]
    } else {
        join_with(items.drop_last(), ", "@) + ", and "@ + items.last()
    }
}

pub open spec fn line_args(key: Seq<char>, value: Seq<char>, request: &StageAssignmentRequest) -> Seq<(Seq<char>, Seq<char>)> {
    seq![(key, value), ("selection_label"@, request.selection_label@), ("selected_room_title"@, request.selected_room_title@),
        ("remaining_room_title"@, request.remaining_room_title@)]
}

/// The sentences that tell of the split: the initiator's, then who went,
/// then who stayed; each only where the stage gives its template and, for
/// the last two, where there is someone to name.
pub open spec fn split_lines(content: &ContentPack, state: &WorldState, request: &StageAssignmentRequest, chosen: Seq<Seq<char>>,
    config: &StageAssignmentDefinition) -> Seq<Seq<char>>
{
    let pre = preplaced_entries(request);
    let cands = cand_views(request.candidates@);
    let selected_names = names_in_room(content, state, pre, request.selected_room_id@, pre.len() as int)
        + cands_where(cands, chosen, true, cands.len() as int).map_values(|c: CandView| c.1);
    let remaining_names = names_in_room(content, state, pre, request.remaining_room_id@, pre.len() as int)
        + cands_where(cands, chosen, false, cands.len() as int).map_values(|c: CandView| c.1);
    let l1: Seq<Seq<char>> = if is_blank(config.initiator_line_template@) { Seq::empty() } else {
        seq![fill_template(config.initiator_line_template@, line_args("initiator_name"@, request.initiator_actor_name@, request), 4)]
    };
    let l2: Seq<Seq<char>> = if selected_names.len() == 0 || is_blank(config.selected_line_template@) { Seq::empty() } else {
        seq![fill_template(config.selected_line_template@, line_args("selected_names"@, join_with_and(selected_names), request), 4)]
    };
    let l3: Seq<Seq<char>> = if remaining_names.len() == 0 || is_blank(config.remaining_line_template@) { Seq::empty() } else {
        seq![fill_template(config.remaining_line_template@, line_args("remaining_names"@, join_with_and(remaining_names), request), 4)]
    };
    l1 + l2 + l3
}

proof fn lemma_insert_text_at(s: Seq<Seq<char>>, x: Seq<char>, k: int)
    requires
        0 <= k <= s.len(),
        k == 0 || !lex_lt(x, s[k - 1]),
        forall|j: int| k <= j < s.len() ==> lex_lt(x, s[j]),
    ensures
        insert_text(s, x) == s.insert(k, x),
    decreases s.len(),
{
    if s.len() == k {
        assert(s.insert(k, x) =~= s.push(x));
    } else {
        lemma_insert_text_at(s.drop_last(), x, k);
        assert(s.insert(k, x) =~= s.drop_last().insert(k, x).push(s.last()));
    }
}

pub open spec fn texts(v: Seq<String>) -> Seq<Seq<char>> {
    v.map_values(|s: String| s@)
}

fn sorted_texts(v: &Vec<String>) -> (r: Vec<String>)
    ensures
        texts(r@) == sort_texts(texts(v@)),
{
    let ghost tv = texts(v@);
    let mut out: Vec<String> = Vec::new();
    let mut i: usize = 0;
    while i < v.len()
        invariant
            i <= v.len(),
            tv == texts(v@),
            texts(out@) == sort_texts(tv.take(i as int)),
        decreases v.len() - i,
    {
        let x = v[i].clone();
        let xc = chars_of(x.as_str());
        let ghost before = out@;
        let mut k: usize = out.len();
        while k > 0 && chars_lt(&xc, &chars_of(out[k - 1].as_str()))
            invariant
                out@ == before,
                xc@ == x@,
                k <= out.len(),
                forall|j: int| k <= j < out.len() ==> lex_lt(x@, out@[j]@),
            decreases k,
        {
            k = k - 1;
        }
        let ghost xv = x@;
        out.insert(k, x);
        proof {
            lemma_insert_text_at(texts(before), xv, k as int);
            assert(texts(out@) =~= texts(before).insert(k as int, xv));
            assert(tv.take(i as int + 1).drop_last() =~= tv.take(i as int));
        }
        i = i + 1;
    }
    assert(tv.take(v.len() as int) =~= tv);
    out
}

fn push_text(v: &mut Vec<String>, s: String)
    ensures
        texts(final(v)@) == texts(old(v)@).push(s@),
{
    let ghost before = v@;
    v.push(s);
    assert(texts(v@) =~= texts(before).push(s@));
}

fn join_names_with_and(items: &Vec<String>) -> (r: String)
    ensures
        r@ == join_with_and(texts(items@)),
{
    let n = items.len();
    if n == 0 {
        String::new()
    } else if n == 1 {
        items[0].clone()
    } else if n == 2 {
        cat(cat(items[0].as_str(), " and ").as_str(), items[1].as_str())
    } else {
        let mut head: Vec<String> = Vec::new();
        let mut i: usize = 0;
        while i < n - 1
            invariant
                n == items.len(),
                n >= 3,
                i <= n - 1,
                texts(head@) == texts(items@).take(i as int),
            decreases n - 1 - i,
        {
            push_text(&mut head, items[i].clone());
            assert(texts(items@).take(i as int + 1) =~= texts(items@).take(i as int).push(items@[i as int]@));
            i = i + 1;
        }
        assert(texts(items@).take(n as int - 1) =~= texts(items@).drop_last());
        let joined = join_texts(&head, ", ");
        cat(cat(joined.as_str(), ", and ").as_str(), items[n - 1].as_str())
    }
}

fn ids_placed_in(pre: &Vec<(String, String)>, room: &str) -> (r: Vec<String>)
    ensures
        texts(r@) == ids_in_room(entry_views(pre@), room@, pre.len() as int),
{
    let ghost pv = entry_views(pre@);
    let mut out: Vec<String> = Vec::new();
    let mut i: usize = 0;
    while i < pre.len()
        invariant
            i <= pre.len(),
            pv == entry_views(pre@),
            texts(out@) == ids_in_room(pv, room@, i as int),
        decreases pre.len() - i,
    {
        assert(pv[i as int] == (pre@[i as int].0@, pre@[i as int].1@));
        if str_eq(pre[i].1.as_str(), room) {
            push_text(&mut out, pre[i].0.clone());
        }
        i = i + 1;
    }
    out
}

fn names_placed_in(content: &ContentPack, state: &WorldState, pre: &Vec<(String, String)>, room: &str) -> (r: Vec<String>)
    requires
        state.wf(),
    ensures
        texts(r@) == names_in_room(content, state, entry_views(pre@), room@, pre.len() as int),
{
    let ghost pv = entry_views(pre@);
    let mut out: Vec<String> = Vec::new();
    let mut i: usize = 0;
    while i < pre.len()
        invariant
            state.wf(),
            i <= pre.len(),
            pv == entry_views(pre@),
            texts(out@) == names_in_room(content, state, pv, room@, i as int),
        decreases pre.len() - i,
    {
        assert(pv[i as int] == (pre@[i as int].0@, pre@[i as int].1@));
        if str_eq(pre[i].1.as_str(), room) {
            match content.actor(pre[i].0.as_str()) {
                Some(actor) => push_text(&mut out, display_actor_name(state, actor)),
                None => {},
            }
        }
        i = i + 1;
    }
    out
}

fn dedup_texts(v: &Vec<String>) -> (r: Vec<String>)
    ensures
        texts(r@) == dedup(texts(v@), v.len() as int),
{
    let mut out: Vec<String> = Vec::new();
    let mut i: usize = 0;
    while i < v.len()
        invariant
            i <= v.len(),
            texts(out@) == dedup(texts(v@), i as int),
        decreases v.len() - i,
    {
        if !crate::reducer::beat_advance::list_contains(&out, v[i].as_str()) {
            push_text(&mut out, v[i].clone());
        }
        i = i + 1;
    }
    out
}

/// The ids (or, with `names`, the names) of the candidates that are chosen
/// (`want`) or not.
fn candidates_where(cands: &Vec<StageAssignmentCandidate>, chosen: &Vec<String>, want: bool, names: bool) -> (r: Vec<String>)
    ensures
        names ==> texts(r@) == cands_where(cand_views(cands@), texts(chosen@), want, cands.len() as int).map_values(|c: CandView| c.1),
        !names ==> texts(r@) == cands_where(cand_views(cands@), texts(chosen@), want, cands.len() as int).map_values(|c: CandView| c.0),
{
    let ghost cv = cand_views(cands@);
    let mut out: Vec<String> = Vec::new();
    let mut i: usize = 0;
    while i < cands.len()
        invariant
            i <= cands.len(),
            cv == cand_views(cands@),
            names ==> texts(out@) == cands_where(cv, texts(chosen@), want, i as int).map_values(|c: CandView| c.1),
            !names ==> texts(out@) == cands_where(cv, texts(chosen@), want, i as int).map_values(|c: CandView| c.0),
        decreases cands.len() - i,
    {
        let c = &cands[i];
        assert(cv[i as int] == (c.actor_id@, c.actor_name@));
        let ghost prev = cands_where(cv, texts(chosen@), want, i as int);
        if crate::reducer::beat_advance::list_contains(chosen, c.actor_id.as_str()) == want {
            let x = if names { c.actor_name.clone() } else { c.actor_id.clone() };
            push_text(&mut out, x);
            assert(prev.push(cv[i as int]).map_values(|c: CandView| c.1) =~= prev.map_values(|c: CandView| c.1).push(cv[i as int].1));
            assert(prev.push(cv[i as int]).map_values(|c: CandView| c.0) =~= prev.map_values(|c: CandView| c.0).push(cv[i as int].0));
        }
        i = i + 1;
    }
    out
}

fn render_line(content: &ContentPack, template: &str, key: &str, value: &str, request: &StageAssignmentRequest) -> (r: String)
    ensures
        r@ == fill_template(template@, line_args(key@, value@, request), 4),
{
    let pairs: Vec<(&str, &str)> = vec![(key, value), ("selection_label", request.selection_label.as_str()),
        ("selected_room_title", request.selected_room_title.as_str()), ("remaining_room_title", request.remaining_room_title.as_str())];
    assert(pair_views(pairs@) =~= line_args(key@, value@, request));
    content.render_template(template, pairs.as_slice())
}

/// Makes a stage's split of the cast, given how the candidates were scored:
/// the best ranked (as many as the stage allows) go to the selected room,
/// the others to the remaining one, hosts and the initiator keep their
/// rooms; the split is recorded in story variables and told in a few
/// sentences. A split already made is not made again, and tells nothing.
pub fn commit_stage_assignment(content: &ContentPack, state: &mut WorldState, request: &StageAssignmentRequest,
    assignment: &StageAssignment, config: &StageAssignmentDefinition) -> (r: String)
    requires
        old(state).wf(),
        request.anchored_room_assignments.wf(),
    ensures
        final(state).wf(),
        already_applied(&*old(state), request.stage_id@) ==> r@ == Seq::<char>::empty() && *final(state) == *old(state),
        !already_applied(&*old(state), request.stage_id@) ==> {
            let chosen = chosen_ids(score_views(assignment.assignments@), config);
            &&& final(state).story_vars.vals() == committed_vars(&*old(state), request, chosen, config)
            &&& final(state).story_vars.decls() == old(state).story_vars.decls()
            &&& *final(state) == (WorldState { story_vars: final(state).story_vars, ..*old(state) })
            &&& r@ == join_with(split_lines(content, &*final(state), request, chosen, config), " "@)
        },
{
    let ranked = ranked_scores(assignment);
    let count = count_selected(assignment, config);
    let ghost sv = score_views(assignment.assignments@);
    let ghost rk = rank_scores(sv);
    proof {
        assert(rk.len() == sv.len()) by { lemma_rank_len(sv); }
    }
    let mut chosen: Vec<String> = Vec::new();
    let mut i: usize = 0;
    while i < count
        invariant
            count as int == selected_count(sv, config),
            count <= ranked.len(),
            pair_score_views(ranked@) == rk,
            i <= count,
            texts(chosen@) == rk.take(i as int).map_values(|x: ScoreView| x.0),
        decreases count - i,
    {
        assert(rk[i as int] == (ranked@[i as int].0@, ranked@[i as int].1 as int));
        push_text(&mut chosen, ranked[i].0.clone());
        assert(rk.take(i as int + 1).map_values(|x: ScoreView| x.0) =~= rk.take(i as int).map_values(|x: ScoreView| x.0).push(rk[i as int].0));
        i = i + 1;
    }
    let ghost cid = texts(chosen@);
    assert(cid == chosen_ids(sv, config));
    let flag = cat("stage_assignment_applied:", request.stage_id.as_str());
    match state.story_vars.get(flag.as_str()) {
        Some(v) => {
            if str_eq(v, "true") {
                return String::new();
            }
        },
        None => {},
    }
    let pre = preplaced(request);
    let ghost pv = entry_views(pre@);
    let selected = request.selected_room_id.as_str();
    let remaining = request.remaining_room_id.as_str();
    state.story_vars.set_unchecked(flag.as_str(), "true");
    if !text_is_blank(config.group_story_var_key.as_str()) {
        let mut group = ids_placed_in(&pre, selected);
        let extra = dedup_texts(&chosen);
        let mut k: usize = 0;
        let ghost head = texts(group@);
        while k < extra.len()
            invariant
                k <= extra.len(),
                texts(group@) == head + texts(extra@).take(k as int),
            decreases extra.len() - k,
        {
            push_text(&mut group, extra[k].clone());
            assert(texts(extra@).take(k as int + 1) =~= texts(extra@).take(k as int).push(extra@[k as int]@));
            k = k + 1;
        }
        assert(texts(extra@).take(extra.len() as int) =~= texts(extra@));
        let sorted = sorted_texts(&group);
        let joined = join_texts(&sorted, ",");
        state.story_vars.set_unchecked(config.group_story_var_key.as_str(), joined.as_str());
    }
    if !text_is_blank(config.remaining_group_story_var_key.as_str()) {
        let mut group = ids_placed_in(&pre, remaining);
        let extra = candidates_where(&request.candidates, &chosen, false, false);
        let mut k: usize = 0;
        let ghost head = texts(group@);
        while k < extra.len()
            invariant
                k <= extra.len(),
                texts(group@) == head + texts(extra@).take(k as int),
            decreases extra.len() - k,
        {
            push_text(&mut group, extra[k].clone());
            assert(texts(extra@).take(k as int + 1) =~= texts(extra@).take(k as int).push(extra@[k as int]@));
            k = k + 1;
        }
        assert(texts(extra@).take(extra.len() as int) =~= texts(extra@));
        let sorted = sorted_texts(&group);
        let joined = join_texts(&sorted, ",");
        state.story_vars.set_unchecked(config.remaining_group_story_var_key.as_str(), joined.as_str());
    }
    let ghost v3 = state.story_vars.vals();
    let mut pre_ids: Vec<String> = Vec::new();
    let mut j: usize = 0;
    while j < pre.len()
        invariant
            state.wf(),
            j <= pre.len(),
            pv == entry_views(pre@),
            state.story_vars.vals() == write_rooms(v3, pv, j as int),
            texts(pre_ids@) == pv.take(j as int).map_values(|e: (Seq<char>, Seq<char>)| e.0),
            *state == (WorldState { story_vars: state.story_vars, ..*old(state) }),
            state.story_vars.decls() == old(state).story_vars.decls(),
        decreases pre.len() - j,
    {
        assert(pv[j as int] == (pre@[j as int].0@, pre@[j as int].1@));
        let key = cat(pre[j].0.as_str(), "_assigned_room");
        state.story_vars.set_unchecked(key.as_str(), pre[j].1.as_str());
        push_text(&mut pre_ids, pre[j].0.clone());
        assert(pv.take(j as int + 1).map_values(|e: (Seq<char>, Seq<char>)| e.0)
            =~= pv.take(j as int).map_values(|e: (Seq<char>, Seq<char>)| e.0).push(pv[j as int].0));
        j = j + 1;
    }
    assert(pv.take(pre.len() as int) =~= pv);
    let ghost v4 = state.story_vars.vals();
    let ghost cv = cand_views(request.candidates@);
    let mut c: usize = 0;
    while c < request.candidates.len()
        invariant
            state.wf(),
            c <= request.candidates.len(),
            cv == cand_views(request.candidates@),
            texts(pre_ids@) == pv.map_values(|e: (Seq<char>, Seq<char>)| e.0),
            texts(chosen@) == cid,
            selected@ == request.selected_room_id@,
            remaining@ == request.remaining_room_id@,
            state.story_vars.vals() == write_candidate_rooms(v4, cv, pv.map_values(|e: (Seq<char>, Seq<char>)| e.0), cid,
                request.selected_room_id@, request.remaining_room_id@, c as int),
            *state == (WorldState { story_vars: state.story_vars, ..*old(state) }),
            state.story_vars.decls() == old(state).story_vars.decls(),
        decreases request.candidates.len() - c,
    {
        let cand = &request.candidates[c];
        assert(cv[c as int] == (cand.actor_id@, cand.actor_name@));
        if !crate::reducer::beat_advance::list_contains(&pre_ids, cand.actor_id.as_str()) {
            let room = if crate::reducer::beat_advance::list_contains(&chosen, cand.actor_id.as_str()) { selected } else { remaining };
            let key = cat(cand.actor_id.as_str(), "_assigned_room");
            state.story_vars.set_unchecked(key.as_str(), room);
        }
        c = c + 1;
    }
    let ghost fin = *state;
    let mut selected_names = names_placed_in(content, state, &pre, selected);
    let chosen_names = candidates_where(&request.candidates, &chosen, true, true);
    let mut k: usize = 0;
    let ghost head = texts(selected_names@);
    while k < chosen_names.len()
        invariant
            k <= chosen_names.len(),
            texts(selected_names@) == head + texts(chosen_names@).take(k as int),
        decreases chosen_names.len() - k,
    {
        push_text(&mut selected_names, chosen_names[k].clone());
        assert(texts(chosen_names@).take(k as int + 1) =~= texts(chosen_names@).take(k as int).push(chosen_names@[k as int]@));
        k = k + 1;
    }
    assert(texts(chosen_names@).take(chosen_names.len() as int) =~= texts(chosen_names@));
    let mut remaining_names = names_placed_in(content, state, &pre, remaining);
    let other_names = candidates_where(&request.candidates, &chosen, false, true);
    let mut k: usize = 0;
    let ghost head = texts(remaining_names@);
    while k < other_names.len()
        invariant
            k <= other_names.len(),
            texts(remaining_names@) == head + texts(other_names@).take(k as int),
        decreases other_names.len() - k,
    {
        push_text(&mut remaining_names, other_names[k].clone());
        assert(texts(other_names@).take(k as int + 1) =~= texts(other_names@).take(k as int).push(other_names@[k as int]@));
        k = k + 1;
    }
    assert(texts(other_names@).take(other_names.len() as int) =~= texts(other_names@));
    let mut lines: Vec<String> = Vec::new();
    if !text_is_blank(config.initiator_line_template.as_str()) {
        push_text(&mut lines, render_line(content, config.initiator_line_template.as_str(), "initiator_name",
            request.initiator_actor_name.as_str(), request));
    }
    if selected_names.len() > 0 && !text_is_blank(config.selected_line_template.as_str()) {
        let names = join_names_with_and(&selected_names);
        push_text(&mut lines, render_line(content, config.selected_line_template.as_str(), "selected_names", names.as_str(), request));
    }
    if remaining_names.len() > 0 && !text_is_blank(config.remaining_line_template.as_str()) {
        let names = join_names_with_and(&remaining_names);
        push_text(&mut lines, render_line(content, config.remaining_line_template.as_str(), "remaining_names", names.as_str(), request));
    }
    assert(texts(lines@) =~= split_lines(content, &fin, request, cid, config));
    join_texts(&lines, " ")
}

proof fn lemma_insert_ranked_len(s: Seq<ScoreView>, x: ScoreView)
    ensures
        insert_ranked(s, x).len() == s.len() + 1,
    decreases s.len(),
{
    if s.len() > 0 && ranks_before(x, s.last()) {
        lemma_insert_ranked_len(s.drop_last(), x);
    }
}

proof fn lemma_rank_len(s: Seq<ScoreView>)
    ensures
        rank_scores(s).len() == s.len(),
    decreases s.len(),
{
    if s.len() > 0 {
        lemma_rank_len(s.drop_last());
        lemma_insert_ranked_len(rank_scores(s.drop_last()), s.last());
    }
}

// ------------------------------------------------------------ request

/// A room a split names: the one a story variable holds, when the stage
/// names a variable and it is set, otherwise the stage's own.
pub open spec fn resolved_room(state: &WorldState, story_var: Seq<char>, default_room_id: Seq<char>) -> Seq<char> {
    if story_var.len() > 0 && state.story_vars.vals().dom().contains(story_var) {
        state.story_vars.vals()[story_var]
    } else {
        default_room_id
    }
}

/// The host a story variable names, when the variable is named and holds
/// a non-blank id.
pub open spec fn host_of(state: &WorldState, story_var: Seq<char>) -> Option<Seq<char>> {
    if !is_blank(story_var) && state.story_vars.vals().dom().contains(story_var) && !is_blank(state.story_vars.vals()[story_var]) {
        Some(state.story_vars.vals()[story_var])
    } else {
        None
    }
}

/// The hosts bound to the two rooms.
pub open spec fn anchored_map(state: &WorldState, config: StageAssignmentDefinition, selected: Seq<char>, remaining: Seq<char>) -> Map<Seq<char>, Seq<char>> {
    let m1 = match host_of(state, config.selected_host_story_var@) {
        Some(h) => Map::<Seq<char>, Seq<char>>::empty().insert(h, selected),
        None => Map::<Seq<char>, Seq<char>>::empty(),
    };
    match host_of(state, config.remaining_host_story_var@) {
        Some(h) => m1.insert(h, remaining),
        None => m1,
    }
}

/// The initiator a split names, when it names a known actor.
pub open spec fn initiator_of(content: &ContentPack, config: StageAssignmentDefinition) -> Option<crate::content::ActorDefinition> {
    if !is_blank(config.initiator_actor_id@) && content.has_actor(config.initiator_actor_id@) {
        Some(content.spec_actor(config.initiator_actor_id@))
    } else {
        None
    }
}

pub open spec fn initiator_id(content: &ContentPack, config: StageAssignmentDefinition) -> Seq<char> {
    match initiator_of(content, config) {
        Some(a) => a.id@,
        None => Seq::empty(),
    }
}

/// Whether an actor is up for placement: neither the initiator nor a host.
pub open spec fn is_candidate(content: &ContentPack, config: StageAssignmentDefinition, anchored: Map<Seq<char>, Seq<char>>,
    a: crate::content::ActorDefinition) -> bool
{
    a.id@ != initiator_id(content, config) && !anchored.dom().contains(a.id@)
}

/// The actors among the first `n` of the pack that are up for placement.
pub open spec fn candidate_actors(content: &ContentPack, config: StageAssignmentDefinition, anchored: Map<Seq<char>, Seq<char>>, n: int)
    -> Seq<crate::content::ActorDefinition>
    decreases n,
{
    if n <= 0 {
        Seq::empty()
    } else {
        let prev = candidate_actors(content, config, anchored, n - 1);
        if is_candidate(content, config, anchored, content.actors@[n - 1]) { prev.push(content.actors@[n - 1]) } else { prev }
    }
}

/// A candidate as it stands: its name, its room and that room's title, its
/// stats, and its pair stats with the initiator (none without one).
pub open spec fn candidate_matches(content: &ContentPack, state: &WorldState, initiator: Option<crate::content::ActorDefinition>,
    a: crate::content::ActorDefinition, c: StageAssignmentCandidate) -> bool
{
    let room = state.spec_actor_room_id(a.id@, a.room_id@);
    &&& c.actor_id@ == a.id@
    &&& c.actor_name@ == spec_display_actor_name(state, &a)
    &&& c.current_room_id@ == room
    &&& c.current_room_title@ == crate::panels::room_title_or_id(content, room)
    &&& c.actor_stats.wf()
    &&& c.actor_stats@.dom() == state.actor_stat_defs@.dom()
    &&& forall|k: Seq<char>| #[trigger] c.actor_stats@.dom().contains(k) ==> c.actor_stats@[k] as int == state.spec_actor_stat(state.spec_remap(a.id@), k)
    &&& c.pair_stats_with_initiator.wf()
    &&& match initiator {
        Some(init) => c.pair_stats_with_initiator@.dom() == state.pair_stat_defs@.dom()
            && forall|k: Seq<char>| #[trigger] c.pair_stats_with_initiator@.dom().contains(k)
                ==> c.pair_stats_with_initiator@[k] as int == state.spec_pair_stat(a.id@, init.id@, k),
        None => c.pair_stats_with_initiator@.dom().len() == 0,
    }
}

/// Whether the split of a stage is due: the stage has a split that names
/// an initiator or a host, both its rooms resolve, it has not been made,
/// and there is someone to place it around and someone to place.
pub open spec fn split_due(content: &ContentPack, state: &WorldState, stage: crate::content::BeatDefinition) -> bool {
    match stage.stage_assignment {
        None => false,
        Some(config) => {
            let selected = resolved_room(state, config.selected_room_story_var@, config.selected_room_id@);
            let remaining = resolved_room(state, config.remaining_room_story_var@, config.remaining_room_id@);
            let anchored = anchored_map(state, config, selected, remaining);
            let initiator = initiator_of(content, config);
            &&& !(is_blank(config.initiator_actor_id@) && is_blank(config.selected_host_story_var@) && is_blank(config.remaining_host_story_var@))
            &&& !is_blank(selected)
            &&& !is_blank(remaining)
            &&& !already_applied(state, stage.id@)
            &&& !(initiator is None && anchored.dom().len() == 0)
            &&& !(initiator is None && candidate_actors(content, config, anchored, content.actors.len() as int).len() == 0)
        },
    }
}

/// The first of the first `n` active stages whose split is due.
pub open spec fn due_stage(content: &ContentPack, state: &WorldState, n: int) -> Option<crate::content::BeatDefinition>
    decreases n,
{
    if n <= 0 {
        None
    } else {
        match due_stage(content, state, n - 1) {
            Some(st) => Some(st),
            None => {
                let id = state.active_objective_stage_ids@[n - 1]@;
                let stages = content.beats.stages@;
                if has_stage(stages, id) && split_due(content, state, stage_def(stages, id)) {
                    Some(stage_def(stages, id))
                } else {
                    None
                }
            },
        }
    }
}

/// Whether a request is the one a due stage gives.
pub open spec fn request_for(content: &ContentPack, state: &WorldState, stage: crate::content::BeatDefinition,
    config: StageAssignmentDefinition, r: &StageAssignmentRequest) -> bool
{
    let selected = resolved_room(state, config.selected_room_story_var@, config.selected_room_id@);
    let remaining = resolved_room(state, config.remaining_room_story_var@, config.remaining_room_id@);
    let anchored = anchored_map(state, config, selected, remaining);
    let initiator = initiator_of(content, config);
    let cands = candidate_actors(content, config, anchored, content.actors.len() as int);
    &&& r.stage_id@ == stage.id@
    &&& r.selection_label@ == if is_blank(config.selection_label@) { stage.summary@ } else { config.selection_label@ }
    &&& r.prompt_instructions@ == config.prompt_instructions@
    &&& r.initiator_actor_id@ == initiator_id(content, config)
    &&& r.initiator_actor_name@ == match initiator { Some(a) => spec_display_actor_name(state, &a), None => Seq::empty() }
    &&& r.selected_room_id@ == selected
    &&& r.selected_room_title@ == crate::panels::room_title_or_id(content, selected)
    &&& r.remaining_room_id@ == remaining
    &&& r.remaining_room_title@ == crate::panels::room_title_or_id(content, remaining)
    &&& r.beat_note@ == crate::reducer::observation::story_text(stage.beat_note@, state)
    &&& r.anchored_room_assignments.wf()
    &&& crate::state::appointments::text_view(r.anchored_room_assignments@) == anchored
    &&& r.candidates.len() == cands.len()
    &&& forall|i: int| 0 <= i < cands.len() ==> candidate_matches(content, state, initiator, cands[i], #[trigger] r.candidates@[i])
}

fn resolve_assignment_room(state: &WorldState, story_var: &str, default_room_id: &str) -> (r: String)
    requires
        state.wf(),
    ensures
        r@ == resolved_room(state, story_var@, default_room_id@),
{
    if story_var.is_empty() {
        string_of(default_room_id)
    } else {
        match state.story_vars.get(story_var) {
            Some(v) => string_of(v),
            None => string_of(default_room_id),
        }
    }
}

fn insert_anchored_room(assignments: &mut StrMap<String>, state: &WorldState, story_var: &str, room_id: &str)
    requires
        old(assignments).wf(),
        state.wf(),
    ensures
        final(assignments).wf(),
        crate::state::appointments::text_view(final(assignments)@) == match host_of(state, story_var@) {
            Some(h) => crate::state::appointments::text_view(old(assignments)@).insert(h, room_id@),
            None => crate::state::appointments::text_view(old(assignments)@),
        },
{
    if !text_is_blank(story_var) {
        match state.story_vars.get(story_var) {
            Some(host_id) => {
                if !text_is_blank(host_id) {
                    assignments.insert_str(host_id, string_of(room_id));
                    assert(crate::state::appointments::text_view(assignments@)
                        =~= crate::state::appointments::text_view(old(assignments)@).insert(host_id@, room_id@));
                }
            },
            None => {},
        }
    }
}

fn assignment_room_title(content: &ContentPack, room_id: &str) -> (r: String)
    ensures
        r@ == crate::panels::room_title_or_id(content, room_id@),
{
    match content.room(room_id) {
        Some(room) => room.title.clone(),
        None => string_of(room_id),
    }
}

/// A copy of a split's definition.
pub fn copy_definition(d: &StageAssignmentDefinition) -> (r: StageAssignmentDefinition)
    ensures
        r == *d,
{
    StageAssignmentDefinition {
        selection_label: d.selection_label.clone(),
        prompt_instructions: d.prompt_instructions.clone(),
        initiator_actor_id: d.initiator_actor_id.clone(),
        selected_room_id: d.selected_room_id.clone(),
        remaining_room_id: d.remaining_room_id.clone(),
        selected_room_story_var: d.selected_room_story_var.clone(),
        remaining_room_story_var: d.remaining_room_story_var.clone(),
        selected_host_story_var: d.selected_host_story_var.clone(),
        remaining_host_story_var: d.remaining_host_story_var.clone(),
        max_selected_actors: d.max_selected_actors,
        min_selected_actors: d.min_selected_actors,
        score_threshold: d.score_threshold,
        group_story_var_key: d.group_story_var_key.clone(),
        remaining_group_story_var_key: d.remaining_group_story_var_key.clone(),
        initiator_line_template: d.initiator_line_template.clone(),
        selected_line_template: d.selected_line_template.clone(),
        remaining_line_template: d.remaining_line_template.clone(),
    }
}

fn build_candidates(content: &ContentPack, state: &WorldState, config: &StageAssignmentDefinition,
    initiator: Option<&crate::content::ActorDefinition>, anchored: &StrMap<String>) -> (r: Vec<StageAssignmentCandidate>)
    requires
        state.wf(),
        anchored.wf(),
        match initiator {
            Some(a) => initiator_of(content, *config) == Some(*a),
            None => initiator_of(content, *config) is None,
        },
    ensures
        ({
            let cands = candidate_actors(content, *config, crate::state::appointments::text_view(anchored@), content.actors.len() as int);
            &&& r.len() == cands.len()
            &&& forall|i: int| 0 <= i < cands.len() ==> candidate_matches(content, state, initiator_of(content, *config), cands[i], #[trigger] r@[i])
        }),
{
    let ghost am = crate::state::appointments::text_view(anchored@);
    let ghost init = initiator_of(content, *config);
    let empty = String::new();
    let init_id: &str = match initiator { Some(a) => a.id.as_str(), None => empty.as_str() };
    assert(init_id@ == initiator_id(content, *config));
    let mut out: Vec<StageAssignmentCandidate> = Vec::new();
    let mut i: usize = 0;
    while i < content.actors.len()
        invariant
            state.wf(),
            anchored.wf(),
            am == crate::state::appointments::text_view(anchored@),
            init == initiator_of(content, *config),
            init_id@ == initiator_id(content, *config),
            match initiator { Some(a) => init == Some(*a), None => init is None },
            i <= content.actors.len(),
            ({
                let cands = candidate_actors(content, *config, am, i as int);
                &&& out.len() == cands.len()
                &&& forall|j: int| 0 <= j < cands.len() ==> candidate_matches(content, state, init, cands[j], #[trigger] out@[j])
            }),
        decreases content.actors.len() - i,
    {
        let actor = &content.actors[i];
        let ghost prev = candidate_actors(content, *config, am, i as int);
        if !str_eq(actor.id.as_str(), init_id) && !anchored.contains_str(actor.id.as_str()) {
            let room_id = state.actor_room_id(actor.id.as_str(), actor.room_id.as_str());
            let pair_stats = match initiator {
                Some(init_actor) => state.pair_stats_snapshot(actor.id.as_str(), init_actor.id.as_str()),
                None => StrMap::new(),
            };
            let c = StageAssignmentCandidate {
                actor_id: actor.id.clone(),
                actor_name: display_actor_name(state, actor),
                current_room_id: string_of(room_id),
                current_room_title: assignment_room_title(content, room_id),
                actor_stats: state.actor_stats_snapshot(actor.id.as_str()),
                pair_stats_with_initiator: pair_stats,
            };
            assert(candidate_matches(content, state, init, *actor, c));
            out.push(c);
            assert(candidate_actors(content, *config, am, i as int + 1) == prev.push(*actor));
        }
        i = i + 1;
    }
    out
}

/// The split of the first active stage for which one is due, with the
/// stage's definition of it; `None` when none is due.
pub fn stage_assignment_request(content: &ContentPack, state: &WorldState) -> (r: Option<(StageAssignmentRequest, StageAssignmentDefinition)>)
    requires
        state.wf(),
    ensures
        r is Some == due_stage(content, state, state.active_objective_stage_ids.len() as int) is Some,
        r matches Some((req, cfg)) ==> ({
            let stage = due_stage(content, state, state.active_objective_stage_ids.len() as int)->0;
            &&& stage.stage_assignment == Some(cfg)
            &&& request_for(content, state, stage, cfg, &req)
        }),
{
    let ids = &state.active_objective_stage_ids;
    let mut i: usize = 0;
    while i < ids.len()
        invariant
            state.wf(),
            ids == &state.active_objective_stage_ids,
            i <= ids.len(),
            due_stage(content, state, i as int) is None,
        decreases ids.len() - i,
    {
        let found = find_stage(content.beats.stages.as_slice(), ids[i].as_str());
        if let Some(k) = found {
            proof { lemma_stage_def(content.beats.stages@, ids@[i as int]@, k as int); }
            let stage = &content.beats.stages[k];
            if let Some(config) = &stage.stage_assignment {
                let named = !(text_is_blank(config.initiator_actor_id.as_str()) && text_is_blank(config.selected_host_story_var.as_str())
                    && text_is_blank(config.remaining_host_story_var.as_str()));
                let selected = resolve_assignment_room(state, config.selected_room_story_var.as_str(), config.selected_room_id.as_str());
                let remaining = resolve_assignment_room(state, config.remaining_room_story_var.as_str(), config.remaining_room_id.as_str());
                let flag = cat("stage_assignment_applied:", stage.id.as_str());
                let applied = match state.story_vars.get(flag.as_str()) {
                    Some(v) => str_eq(v, "true"),
                    None => false,
                };
                if named && !text_is_blank(selected.as_str()) && !text_is_blank(remaining.as_str()) && !applied {
                    let mut anchored: StrMap<String> = StrMap::new();
                    assert(crate::state::appointments::text_view(anchored@) =~= Map::<Seq<char>, Seq<char>>::empty());
                    insert_anchored_room(&mut anchored, state, config.selected_host_story_var.as_str(), selected.as_str());
                    insert_anchored_room(&mut anchored, state, config.remaining_host_story_var.as_str(), remaining.as_str());
                    let ghost am = crate::state::appointments::text_view(anchored@);
                    assert(am =~= anchored_map(state, *config, selected@, remaining@));
                    let initiator = if text_is_blank(config.initiator_actor_id.as_str()) {
                        None
                    } else {
                        content.actor(config.initiator_actor_id.as_str())
                    };
                    proof { anchored.lemma_contents(); }
                    if !(initiator.is_none() && anchored.len() == 0) {
                        let candidates = build_candidates(content, state, config, initiator, &anchored);
                        if !(candidates.len() == 0 && initiator.is_none()) {
                            let (init_id, init_name) = match initiator {
                                Some(a) => (a.id.clone(), display_actor_name(state, a)),
                                None => (String::new(), String::new()),
                            };
                            let request = StageAssignmentRequest {
                                stage_id: stage.id.clone(),
                                selection_label: if text_is_blank(config.selection_label.as_str()) {
                                    stage.summary.clone()
                                } else {
                                    config.selection_label.clone()
                                },
                                prompt_instructions: config.prompt_instructions.clone(),
                                initiator_actor_id: init_id,
                                initiator_actor_name: init_name,
                                selected_room_title: assignment_room_title(content, selected.as_str()),
                                selected_room_id: selected,
                                remaining_room_title: assignment_room_title(content, remaining.as_str()),
                                remaining_room_id: remaining,
                                beat_note: crate::reducer::observation::render_story_text(stage.beat_note.as_str(), state),
                                anchored_room_assignments: anchored,
                                candidates,
                            };
                            proof {
                                assert(am.dom() =~= anchored@.dom());
                                assert(flag@ == flag_key(stage.id@));
                                assert(applied == already_applied(state, stage.id@));
                                assert(initiator is None <==> initiator_of(content, *config) is None);
                                assert(split_due(content, state, *stage));
                                assert(stage_def(content.beats.stages@, ids@[i as int]@) == *stage);
                                assert(due_stage(content, state, i as int + 1) == Some(*stage));
                                lemma_due_found(content, state, i as int + 1, ids.len() as int);
                            }
                            return Some((request, copy_definition(config)));
                        } else {
                            proof {
                                assert(am.dom() =~= anchored@.dom());
                                assert(initiator is None <==> initiator_of(content, *config) is None);
                                assert(!split_due(content, state, *stage));
                            }
                        }
                    } else {
                        proof {
                            assert(am.dom() =~= anchored@.dom());
                            assert(initiator is None <==> initiator_of(content, *config) is None);
                            assert(!split_due(content, state, *stage));
                        }
                    }
                } else {
                    proof {
                        assert(flag@ == flag_key(stage.id@));
                        assert(applied == already_applied(state, stage.id@));
                        assert(!split_due(content, state, *stage));
                    }
                }
            }
        }
        i = i + 1;
    }
    None
}

proof fn lemma_due_found(content: &ContentPack, state: &WorldState, a: int, b: int)
    requires
        0 <= a <= b,
        due_stage(content, state, a) is Some,
    ensures
        due_stage(content, state, b) == due_stage(content, state, a),
    decreases b - a,
{
    if a < b {
        lemma_due_found(content, state, a, b - 1);
    }
}

/// Scores for when none were given: a candidate already in the selected
/// room scores 100, the others 100 less their place in the list.
pub fn fallback_stage_assignment(request: &StageAssignmentRequest) -> (r: StageAssignment)
    requires
        request.candidates.len() <= 100 + i32::MAX,
    ensures
        r.assignments.len() == request.candidates.len(),
        forall|i: int| 0 <= i < request.candidates.len() ==> {
            &&& (#[trigger] r.assignments@[i]).actor_id@ == request.candidates@[i].actor_id@
            &&& r.assignments@[i].selection_score as int == if request.candidates@[i].current_room_id@ == request.selected_room_id@ { 100 } else { 100 - i }
        },
{
    let mut out: Vec<StageAssignmentScore> = Vec::new();
    let mut i: usize = 0;
    while i < request.candidates.len()
        invariant
            request.candidates.len() <= 100 + i32::MAX,
            i <= request.candidates.len(),
            out.len() == i,
            forall|j: int| 0 <= j < i ==> {
                &&& (#[trigger] out@[j]).actor_id@ == request.candidates@[j].actor_id@
                &&& out@[j].selection_score as int == if request.candidates@[j].current_room_id@ == request.selected_room_id@ { 100 } else { 100 - j }
            },
        decreases request.candidates.len() - i,
    {
        let c = &request.candidates[i];
        let score: i32 = if str_eq(c.current_room_id.as_str(), request.selected_room_id.as_str()) {
            100
        } else {
            (100 - (i as i64)) as i32
        };
        out.push(StageAssignmentScore { actor_id: c.actor_id.clone(), selection_score: score, rationale: string_of("deterministic fallback") });
        i = i + 1;
    }
    StageAssignment { assignments: out }
}

proof fn lemma_write_rooms_keeps(m: Map<Seq<char>, Seq<char>>, entries: Seq<(Seq<char>, Seq<char>)>, n: int, key: Seq<char>)
    requires
        0 <= n <= entries.len(),
        forall|x: Seq<char>| key != #[trigger] assigned_key(x),
    ensures
        write_rooms(m, entries, n).dom().contains(key) == m.dom().contains(key),
        m.dom().contains(key) ==> write_rooms(m, entries, n)[key] == m[key],
    decreases n,
{
    if n > 0 {
        lemma_write_rooms_keeps(m, entries, n - 1, key);
        assert(key != assigned_key(entries[n - 1].0));
    }
}

proof fn lemma_write_candidates_keeps(m: Map<Seq<char>, Seq<char>>, cands: Seq<CandView>, placed: Seq<Seq<char>>,
    chosen: Seq<Seq<char>>, selected: Seq<char>, remaining: Seq<char>, n: int, key: Seq<char>)
    requires
        0 <= n <= cands.len(),
        forall|x: Seq<char>| key != #[trigger] assigned_key(x),
    ensures
        write_candidate_rooms(m, cands, placed, chosen, selected, remaining, n).dom().contains(key) == m.dom().contains(key),
        m.dom().contains(key) ==> write_candidate_rooms(m, cands, placed, chosen, selected, remaining, n)[key] == m[key],
    decreases n,
{
    if n > 0 {
        lemma_write_candidates_keeps(m, cands, placed, chosen, selected, remaining, n - 1, key);
        assert(key != assigned_key(cands[n - 1].0));
    }
}

/// The scores that reach the threshold.
pub open spec fn reaching(s: Seq<ScoreView>, threshold: int) -> Seq<ScoreView> {
    s.filter(|x: ScoreView| x.1 >= threshold)
}

proof fn lemma_passing_is_reaching(s: Seq<ScoreView>, threshold: int, n: int)
    requires
        0 <= n <= s.len(),
    ensures
        passing_count(s, threshold, n) == reaching(s.take(n), threshold).len(),
    decreases n,
{
    reveal(Seq::filter);
    if n > 0 {
        lemma_passing_is_reaching(s, threshold, n - 1);
        assert(s.take(n).drop_last() =~= s.take(n - 1));
        assert(s.take(n).last() == s[n - 1]);
    }
}

/// How many actors a split selects: never more than the pack's maximum or
/// than were scored; at least the pack's minimum (or everyone, when fewer
/// were scored) when the minimum does not exceed the maximum; everyone who
/// reaches the threshold, up to the maximum; and exactly those who reach it
/// when their number lies between the minimum and the maximum.
pub proof fn law_selection_count_is_bounded(s: Seq<ScoreView>, config: &StageAssignmentDefinition)
    ensures
        0 <= selected_count(s, config) <= s.len(),
        selected_count(s, config) <= config.max_selected_actors,
        config.min_selected_actors <= config.max_selected_actors ==>
            selected_count(s, config) >= if config.min_selected_actors <= s.len() { config.min_selected_actors as int } else { s.len() as int },
        ({
            let passing = reaching(s, config.score_threshold as int).len();
            &&& selected_count(s, config) >= if passing <= config.max_selected_actors { passing as int } else { config.max_selected_actors as int }
            &&& config.min_selected_actors <= passing <= config.max_selected_actors ==> selected_count(s, config) == passing
        }),
{
    lemma_passing_is_reaching(s, config.score_threshold as int, s.len() as int);
    assert(s.take(s.len() as int) =~= s);
    let passing = reaching(s, config.score_threshold as int).len();
    s.filter_lemma(|x: ScoreView| x.1 >= config.score_threshold as int);
    assert(passing <= s.len());
}

/// Whether the scores run from highest to lowest.
pub open spec fn scores_descend(s: Seq<ScoreView>) -> bool {
    forall|i: int, j: int| 0 <= i < j < s.len() ==> #[trigger] s[i].1 >= #[trigger] s[j].1
}

proof fn lemma_insert_ranked_keeps(s: Seq<ScoreView>, x: ScoreView, b: int)
    ensures
        insert_ranked(s, x).len() == s.len() + 1,
        insert_ranked(s, x).to_multiset() =~= s.to_multiset().insert(x),
        x.1 >= b && (forall|i: int| 0 <= i < s.len() ==> #[trigger] s[i].1 >= b)
            ==> forall|i: int| 0 <= i < s.len() + 1 ==> #[trigger] insert_ranked(s, x)[i].1 >= b,
        scores_descend(s) ==> scores_descend(insert_ranked(s, x)),
    decreases s.len(),
{
    broadcast use vstd::multiset::group_multiset_axioms;
    if s.len() == 0 || !ranks_before(x, s.last()) {
        vstd::seq_lib::to_multiset_build(s, x);
    } else {
        let d = s.drop_last();
        let last = s.last();
        assert(s =~= d.push(last));
        vstd::seq_lib::to_multiset_build(d, last);
        lemma_insert_ranked_keeps(d, x, b);
        lemma_insert_ranked_keeps(d, x, last.1);
        let r = insert_ranked(d, x);
        vstd::seq_lib::to_multiset_build(r, last);
        assert(insert_ranked(s, x) == r.push(last));
        if x.1 >= b && (forall|i: int| 0 <= i < s.len() ==> #[trigger] s[i].1 >= b) {
            assert(last.1 >= b);
            assert forall|i: int| 0 <= i < d.len() implies #[trigger] d[i].1 >= b by {
                assert(s[i].1 >= b);
            }
        }
        if scores_descend(s) {
            assert forall|i: int| 0 <= i < d.len() implies #[trigger] d[i].1 >= last.1 by {
                assert(s[i].1 >= s[s.len() - 1].1);
            }
            assert(scores_descend(d)) by {
                assert forall|i: int, j: int| 0 <= i < j < d.len() implies #[trigger] d[i].1 >= #[trigger] d[j].1 by {
                    assert(s[i].1 >= s[j].1);
                }
            }
            assert forall|i: int, j: int| 0 <= i < j < r.len() + 1 implies #[trigger] r.push(last)[i].1 >= #[trigger] r.push(last)[j].1 by {
                if j == r.len() {
                    assert(r[i].1 >= last.1);
                }
            }
        }
    }
}

/// Ranking the scores orders them from highest to lowest and keeps every
/// score, each as often as it came: so the actors a split selects score at
/// least as high as every actor it leaves.
pub proof fn law_ranking_orders_scores(s: Seq<ScoreView>)
    ensures
        rank_scores(s).len() == s.len(),
        rank_scores(s).to_multiset() == s.to_multiset(),
        scores_descend(rank_scores(s)),
    decreases s.len(),
{
    broadcast use vstd::multiset::group_multiset_axioms;
    if s.len() > 0 {
        let d = s.drop_last();
        law_ranking_orders_scores(d);
        lemma_insert_ranked_keeps(rank_scores(d), s.last(), 0);
        assert(s =~= d.push(s.last()));
        vstd::seq_lib::to_multiset_build(d, s.last());
    }
}

/// A stage's split is made once: once made, the stage is marked done, so
/// making it again changes nothing and tells nothing. This holds unless
/// the stage names its marker as one of the group variables, or the
/// marker has the shape of a placement variable.
pub proof fn law_split_is_made_once(before: &WorldState, after: &WorldState, request: &StageAssignmentRequest,
    chosen: Seq<Seq<char>>, config: &StageAssignmentDefinition)
    requires
        after.story_vars.vals() == committed_vars(before, request, chosen, config),
        config.group_story_var_key@ != flag_key(request.stage_id@),
        config.remaining_group_story_var_key@ != flag_key(request.stage_id@),
        forall|x: Seq<char>| flag_key(request.stage_id@) != #[trigger] assigned_key(x),
    ensures
        already_applied(after, request.stage_id@),
{
    let key = flag_key(request.stage_id@);
    let pre = preplaced_entries(request);
    let cands = cand_views(request.candidates@);
    let v1 = before.story_vars.vals().insert(key, "true"@);
    let v2 = if is_blank(config.group_story_var_key@) { v1 } else {
        v1.insert(config.group_story_var_key@, join_with(selected_group(request, chosen), ","@))
    };
    let v3 = if is_blank(config.remaining_group_story_var_key@) { v2 } else {
        v2.insert(config.remaining_group_story_var_key@, join_with(remaining_group(request, chosen), ","@))
    };
    assert(v3.dom().contains(key) && v3[key] == "true"@);
    lemma_write_rooms_keeps(v3, pre, pre.len() as int, key);
    let v4 = write_rooms(v3, pre, pre.len() as int);
    lemma_write_candidates_keeps(v4, cands, pre.map_values(|e: (Seq<char>, Seq<char>)| e.0), chosen,
        request.selected_room_id@, request.remaining_room_id@, cands.len() as int, key);
}

/// The fallback scores as values.
pub open spec fn fallback_views(request: &StageAssignmentRequest) -> Seq<ScoreView> {
    Seq::new(request.candidates.len() as nat, |i: int| (request.candidates@[i].actor_id@,
        if request.candidates@[i].current_room_id@ == request.selected_room_id@ { 100int } else { 100 - i }))
}

pub proof fn lemma_fallback_views(request: &StageAssignmentRequest, r: &StageAssignment)
    requires
        r.assignments.len() == request.candidates.len(),
        forall|i: int| 0 <= i < request.candidates.len() ==> {
            &&& (#[trigger] r.assignments@[i]).actor_id@ == request.candidates@[i].actor_id@
            &&& r.assignments@[i].selection_score as int == if request.candidates@[i].current_room_id@ == request.selected_room_id@ { 100 } else { 100 - i }
        },
    ensures
        score_views(r.assignments@) == fallback_views(request),
{
    assert(score_views(r.assignments@) =~= fallback_views(request));
}

pub proof fn lemma_candidates_len(content: &ContentPack, config: StageAssignmentDefinition, anchored: Map<Seq<char>, Seq<char>>, n: int)
    requires
        0 <= n,
    ensures
        candidate_actors(content, config, anchored, n).len() <= n,
    decreases n,
{
    if n > 0 {
        lemma_candidates_len(content, config, anchored, n - 1);
    }
}

/// The text of a turn once a split's sentences follow it: the sentences
/// alone after a silent turn, after a blank line otherwise.
pub open spec fn with_summary(text: Seq<char>, summary: Seq<char>) -> Seq<char> {
    if summary.len() == 0 { text } else if text.len() == 0 { summary } else { text + "\n\n"@ + summary }
}

/// The stage found is one whose split is due.
pub proof fn lemma_due_stage_is_due(content: &ContentPack, state: &WorldState, n: int)
    requires
        due_stage(content, state, n) is Some,
    ensures
        split_due(content, state, due_stage(content, state, n)->0),
    decreases n,
{
    if n > 0 && due_stage(content, state, n - 1) is Some {
        lemma_due_stage_is_due(content, state, n - 1);
    }
}

} // verus!

use vstd::prelude::*;
use vstd::seq_lib::to_multiset_build;
use crate::content::{ActClosureDefinition, ActClosureSectionDefinition, ActClosureSource, ActorDefinition, ContentPack};
use crate::reducer::beat_advance::{find_stage, has_stage, lemma_stage_def, stage_def};
use crate::reducer::observation::{join_texts, render_story_text, story_text};
use crate::reducer::summaries::join_with;
use crate::state::WorldState;
use crate::state::appointments::{display_actor_name, spec_display_actor_name};
use crate::text::{cat, chars_lt, chars_of, i64_chars, int_text, lex_lt, str_eq, string_from_chars, string_of};

verus! {

/// How an actor id reads at the end of an act: the actor's display name,
/// or the id itself when the pack does not know it.
pub open spec fn name_for(content: &ContentPack, state: &WorldState, actor_id: Seq<char>) -> Seq<char> {
    if content.has_actor(actor_id) { spec_display_actor_name(state, &content.spec_actor(actor_id)) } else { actor_id }
}

fn display_actor_name_for_state(content: &ContentPack, state: &WorldState, actor_id: &str) -> (r: String)
    requires
        state.wf(),
    ensures
        r@ == name_for(content, state, actor_id@),
{
    match content.actor(actor_id) {
        Some(actor) => display_actor_name(state, actor),
        None => string_of(actor_id),
    }
}

// ------------------------------------------------------ relationship pairs

/// Two actors and how their relationship stands.
pub struct RelationshipPair {
    pub actor_a: String,
    pub actor_b: String,
    pub connection: i32,
    pub attraction: i32,
    pub safety: i32,
}

/// A pair as values: the two names, then connection, attraction, safety.
pub type PairView = (Seq<char>, Seq<char>, int, int, int);

pub open spec fn pair_view(p: RelationshipPair) -> PairView {
    (p.actor_a@, p.actor_b@, p.connection as int, p.attraction as int, p.safety as int)
}

pub open spec fn pair_views(v: Seq<RelationshipPair>) -> Seq<PairView> {
    v.map_values(|p: RelationshipPair| pair_view(p))
}

/// A pair stat of two actors, or zero when the pack declares no such stat.
pub open spec fn pair_stat_or_zero(state: &WorldState, a: Seq<char>, b: Seq<char>, key: Seq<char>) -> int {
    if state.pair_stat_defs@.dom().contains(key) { state.spec_pair_stat(a, b, key) } else { 0 }
}

/// The entry for two actors: only when the pack declares pair stats and
/// their connection is not zero.
pub open spec fn pair_entry(content: &ContentPack, state: &WorldState, a: ActorDefinition, b: ActorDefinition) -> Option<PairView> {
    let connection = pair_stat_or_zero(state, a.id@, b.id@, "connection"@);
    if state.pair_stat_defs@.dom().len() == 0 || connection == 0 {
        None
    } else {
        Some((name_for(content, state, a.id@), name_for(content, state, b.id@), connection,
            pair_stat_or_zero(state, a.id@, b.id@, "attraction"@), pair_stat_or_zero(state, a.id@, b.id@, "safety"@)))
    }
}

/// The entries of actor `i` with each later actor before `k`, in pack order.
pub open spec fn pair_row(content: &ContentPack, state: &WorldState, i: int, k: int) -> Seq<PairView>
    decreases k - i,
{
    if k <= i + 1 {
        Seq::empty()
    } else {
        let prev = pair_row(content, state, i, k - 1);
        match pair_entry(content, state, content.actors@[i], content.actors@[k - 1]) {
            Some(p) => prev.push(p),
            None => prev,
        }
    }
}

/// The entries of every pair whose first actor is among the first `m`,
/// pairs taken in pack order, each pair once.
pub open spec fn pair_rows(content: &ContentPack, state: &WorldState, m: int) -> Seq<PairView>
    decreases m,
{
    if m <= 0 {
        Seq::empty()
    } else {
        pair_rows(content, state, m - 1) + pair_row(content, state, m - 1, content.actors.len() as int)
    }
}

/// `x` placed into `sorted` after every entry whose connection is at least
/// its own.
pub open spec fn insert_by_connection(sorted: Seq<PairView>, x: PairView) -> Seq<PairView>
    decreases sorted.len(),
{
    if sorted.len() == 0 || sorted.last().2 >= x.2 {
        sorted.push(x)
    } else {
        insert_by_connection(sorted.drop_last(), x).push(sorted.last())
    }
}

/// The entries ordered from the strongest connection down, entries of
/// equal connection keeping their order.
pub open spec fn sort_by_connection(s: Seq<PairView>) -> Seq<PairView>
    decreases s.len(),
{
    if s.len() == 0 {
        s
    } else {
        insert_by_connection(sort_by_connection(s.drop_last()), s.last())
    }
}

/// The relationship pairs as listed: every connected pair, strongest first.
pub open spec fn relationship_pair_list(content: &ContentPack, state: &WorldState) -> Seq<PairView> {
    sort_by_connection(pair_rows(content, state, content.actors.len() as int))
}

proof fn lemma_insert_at(s: Seq<PairView>, x: PairView, k: int)
    requires
        0 <= k <= s.len(),
        k == 0 || s[k - 1].2 >= x.2,
        forall|j: int| k <= j < s.len() ==> s[j].2 < x.2,
    ensures
        insert_by_connection(s, x) == s.insert(k, x),
    decreases s.len(),
{
    if s.len() == k {
        assert(s.insert(k, x) =~= s.push(x));
    } else {
        lemma_insert_at(s.drop_last(), x, k);
        assert(s.insert(k, x) =~= s.drop_last().insert(k, x).push(s.last()));
    }
}

fn insert_pair(out: &mut Vec<RelationshipPair>, p: RelationshipPair)
    ensures
        pair_views(final(out)@) == insert_by_connection(pair_views(old(out)@), pair_view(p)),
{
    let ghost before = out@;
    let mut k: usize = out.len();
    while k > 0 && out[k - 1].connection < p.connection
        invariant
            out@ == before,
            k <= out.len(),
            forall|j: int| k <= j < out.len() ==> out@[j].connection < p.connection,
        decreases k,
    {
        k = k - 1;
    }
    let ghost pv = pair_view(p);
    out.insert(k, p);
    proof {
        lemma_insert_at(pair_views(before), pv, k as int);
        assert(pair_views(out@) =~= pair_views(before).insert(k as int, pv));
    }
}

fn pair_entry_of(content: &ContentPack, state: &WorldState, a: &ActorDefinition, b: &ActorDefinition) -> (r: Option<RelationshipPair>)
    requires
        state.wf(),
    ensures
        match r {
            Some(p) => pair_entry(content, state, *a, *b) == Some(pair_view(p)),
            None => pair_entry(content, state, *a, *b) is None,
        },
{
    let stats = state.pair_stats_snapshot(a.id.as_str(), b.id.as_str());
    proof {
        stats.lemma_contents();
        state.pair_stat_defs.lemma_contents();
    }
    if stats.len() == 0 {
        return None;
    }
    let connection = match stats.get_str("connection") { Some(v) => *v, None => 0 };
    if connection == 0 {
        return None;
    }
    let attraction = match stats.get_str("attraction") { Some(v) => *v, None => 0 };
    let safety = match stats.get_str("safety") { Some(v) => *v, None => 0 };
    Some(RelationshipPair {
        actor_a: display_actor_name_for_state(content, state, a.id.as_str()),
        actor_b: display_actor_name_for_state(content, state, b.id.as_str()),
        connection,
        attraction,
        safety,
    })
}

/// Every pair of actors whose connection is not zero, strongest first.
pub fn relationship_pairs(content: &ContentPack, state: &WorldState) -> (r: Vec<RelationshipPair>)
    requires
        state.wf(),
    ensures
        pair_views(r@) == relationship_pair_list(content, state),
{
    let n = content.actors.len();
    let mut out: Vec<RelationshipPair> = Vec::new();
    let mut i: usize = 0;
    while i < n
        invariant
            state.wf(),
            n == content.actors.len(),
            i <= n,
            pair_views(out@) == sort_by_connection(pair_rows(content, state, i as int)),
        decreases n - i,
    {
        let mut j: usize = i + 1;
        while j < n
            invariant
                state.wf(),
                n == content.actors.len(),
                i < n,
                i + 1 <= j <= n,
                pair_views(out@) == sort_by_connection(pair_rows(content, state, i as int) + pair_row(content, state, i as int, j as int)),
            decreases n - j,
        {
            let ghost s = pair_rows(content, state, i as int) + pair_row(content, state, i as int, j as int);
            match pair_entry_of(content, state, &content.actors[i], &content.actors[j]) {
                Some(p) => {
                    let ghost pv = pair_view(p);
                    insert_pair(&mut out, p);
                    assert(s.push(pv).drop_last() =~= s);
                    assert(pair_rows(content, state, i as int) + pair_row(content, state, i as int, j as int + 1) =~= s.push(pv));
                },
                None => {
                    assert(pair_rows(content, state, i as int) + pair_row(content, state, i as int, j as int + 1) =~= s);
                },
            }
            j = j + 1;
        }
        i = i + 1;
    }
    out
}

/// Ordering the pairs neither loses nor invents one, and puts them from the
/// strongest connection down.
pub proof fn law_pairs_come_strongest_first(s: Seq<PairView>)
    ensures
        sort_by_connection(s).to_multiset() == s.to_multiset(),
        forall|i: int, j: int| 0 <= i < j < sort_by_connection(s).len() ==> sort_by_connection(s)[i].2 >= sort_by_connection(s)[j].2,
    decreases s.len(),
{
    if s.len() > 0 {
        law_pairs_come_strongest_first(s.drop_last());
        lemma_insert_keeps(sort_by_connection(s.drop_last()), s.last());
        to_multiset_build(s.drop_last(), s.last());
        assert(s.drop_last().push(s.last()) =~= s);
    }
}

proof fn lemma_insert_keeps(sorted: Seq<PairView>, x: PairView)
    requires
        forall|i: int, j: int| 0 <= i < j < sorted.len() ==> sorted[i].2 >= sorted[j].2,
    ensures
        insert_by_connection(sorted, x).to_multiset() == sorted.to_multiset().insert(x),
        forall|i: int, j: int| 0 <= i < j < insert_by_connection(sorted, x).len()
            ==> insert_by_connection(sorted, x)[i].2 >= insert_by_connection(sorted, x)[j].2,
    decreases sorted.len(),
{
    to_multiset_build(sorted, x);
    if sorted.len() > 0 && sorted.last().2 < x.2 {
        let rest = sorted.drop_last();
        lemma_insert_keeps(rest, x);
        let ins = insert_by_connection(rest, x);
        to_multiset_build(ins, sorted.last());
        to_multiset_build(rest, sorted.last());
        assert(rest.push(sorted.last()) =~= sorted);
        assert(ins.to_multiset().insert(sorted.last()) =~= sorted.to_multiset().insert(x)) by {
            assert(rest.to_multiset().insert(x).insert(sorted.last()) =~= rest.to_multiset().insert(sorted.last()).insert(x));
        }
        assert(forall|i: int| 0 <= i < rest.len() ==> rest[i].2 >= sorted.last().2);
        lemma_insert_lower(rest, x, sorted.last().2);
    }
}

proof fn lemma_insert_lower(sorted: Seq<PairView>, x: PairView, v: int)
    requires
        forall|i: int| 0 <= i < sorted.len() ==> sorted[i].2 >= v,
        x.2 >= v,
    ensures
        forall|i: int| 0 <= i < insert_by_connection(sorted, x).len() ==> insert_by_connection(sorted, x)[i].2 >= v,
    decreases sorted.len(),
{
    let r = insert_by_connection(sorted, x);
    if sorted.len() > 0 && sorted.last().2 < x.2 {
        let rest = insert_by_connection(sorted.drop_last(), x);
        lemma_insert_lower(sorted.drop_last(), x, v);
        assert(r == rest.push(sorted.last()));
        assert forall|i: int| 0 <= i < r.len() implies r[i].2 >= v by {
            if i < rest.len() { assert(r[i] == rest[i]); }
        }
    } else {
        assert(r == sorted.push(x));
        assert forall|i: int| 0 <= i < r.len() implies r[i].2 >= v by {
            if i < sorted.len() { assert(r[i] == sorted[i]); }
        }
    }
}

// ------------------------------------------------------ relationship lines

/// How far a pair stat of two actors stands from its declared default.
pub open spec fn deviation(state: &WorldState, a: Seq<char>, b: Seq<char>, key: Seq<char>) -> int {
    let d = state.spec_pair_stat(a, b, key) - state.pair_stat_defs@[key].default as int;
    if d < 0 { -d } else { d }
}

/// The summed deviation over the first `n` declared pair stats.
pub open spec fn pair_score(state: &WorldState, a: Seq<char>, b: Seq<char>, keys: Seq<Seq<char>>, n: int) -> int
    decreases n,
{
    if n <= 0 { 0 } else { pair_score(state, a, b, keys, n - 1) + deviation(state, a, b, keys[n - 1]) }
}

/// `key value` for each of the first `n` declared pair stats that stands
/// away from its default, in key order.
pub open spec fn changed_stats(state: &WorldState, a: Seq<char>, b: Seq<char>, keys: Seq<Seq<char>>, n: int) -> Seq<Seq<char>>
    decreases n,
{
    if n <= 0 {
        Seq::empty()
    } else {
        let prev = changed_stats(state, a, b, keys, n - 1);
        let key = keys[n - 1];
        let value = state.spec_pair_stat(a, b, key);
        if value != state.pair_stat_defs@[key].default as int { prev.push(key + " "@ + int_text(value)) } else { prev }
    }
}

/// The status line of two actors with its score, when a stat of theirs
/// has moved from its default.
pub open spec fn status_entry(content: &ContentPack, state: &WorldState, a: ActorDefinition, b: ActorDefinition) -> Option<(int, Seq<char>)> {
    let keys = state.pair_stat_defs.key_seq();
    let changed = changed_stats(state, a.id@, b.id@, keys, keys.len() as int);
    if changed.len() == 0 {
        None
    } else {
        Some((pair_score(state, a.id@, b.id@, keys, keys.len() as int),
            name_for(content, state, a.id@) + " / "@ + name_for(content, state, b.id@) + ": "@ + join_with(changed, ", "@)))
    }
}

pub open spec fn status_row(content: &ContentPack, state: &WorldState, i: int, k: int) -> Seq<(int, Seq<char>)>
    decreases k - i,
{
    if k <= i + 1 {
        Seq::empty()
    } else {
        let prev = status_row(content, state, i, k - 1);
        match status_entry(content, state, content.actors@[i], content.actors@[k - 1]) {
            Some(e) => prev.push(e),
            None => prev,
        }
    }
}

pub open spec fn status_rows(content: &ContentPack, state: &WorldState, m: int) -> Seq<(int, Seq<char>)>
    decreases m,
{
    if m <= 0 {
        Seq::empty()
    } else {
        status_rows(content, state, m - 1) + status_row(content, state, m - 1, content.actors.len() as int)
    }
}

/// Whether entry `e` comes after `x`: by score, then by line.
pub open spec fn entry_lt(e: (int, Seq<char>), x: (int, Seq<char>)) -> bool {
    e.0 < x.0 || (e.0 == x.0 && lex_lt(e.1, x.1))
}

pub open spec fn insert_entry(sorted: Seq<(int, Seq<char>)>, x: (int, Seq<char>)) -> Seq<(int, Seq<char>)>
    decreases sorted.len(),
{
    if sorted.len() == 0 || !entry_lt(sorted.last(), x) {
        sorted.push(x)
    } else {
        insert_entry(sorted.drop_last(), x).push(sorted.last())
    }
}

/// The entries from the highest (score, line) down.
pub open spec fn sort_entries(s: Seq<(int, Seq<char>)>) -> Seq<(int, Seq<char>)>
    decreases s.len(),
{
    if s.len() == 0 { s } else { insert_entry(sort_entries(s.drop_last()), s.last()) }
}

/// The relationship status lines: one per pair of actors with a pair stat
/// away from its default, the most changed pairs first.
pub open spec fn status_lines(content: &ContentPack, state: &WorldState) -> Seq<Seq<char>> {
    sort_entries(status_rows(content, state, content.actors.len() as int)).map_values(|e: (int, Seq<char>)| e.1)
}

pub open spec fn entry_views(v: Seq<(i128, String)>) -> Seq<(int, Seq<char>)> {
    v.map_values(|e: (i128, String)| (e.0 as int, e.1@))
}

proof fn lemma_insert_entry_at(s: Seq<(int, Seq<char>)>, x: (int, Seq<char>), k: int)
    requires
        0 <= k <= s.len(),
        k == 0 || !entry_lt(s[k - 1], x),
        forall|j: int| k <= j < s.len() ==> entry_lt(s[j], x),
    ensures
        insert_entry(s, x) == s.insert(k, x),
    decreases s.len(),
{
    if s.len() == k {
        assert(s.insert(k, x) =~= s.push(x));
    } else {
        lemma_insert_entry_at(s.drop_last(), x, k);
        assert(s.insert(k, x) =~= s.drop_last().insert(k, x).push(s.last()));
    }
}

fn entry_before(e: &(i128, String), x: &(i128, String)) -> (r: bool)
    ensures
        r == entry_lt((e.0 as int, e.1@), (x.0 as int, x.1@)),
{
    e.0 < x.0 || (e.0 == x.0 && chars_lt(&chars_of(e.1.as_str()), &chars_of(x.1.as_str())))
}

fn insert_status(out: &mut Vec<(i128, String)>, x: (i128, String))
    ensures
        entry_views(final(out)@) == insert_entry(entry_views(old(out)@), (x.0 as int, x.1@)),
{
    let ghost before = out@;
    let mut k: usize = out.len();
    while k > 0 && entry_before(&out[k - 1], &x)
        invariant
            out@ == before,
            k <= out.len(),
            forall|j: int| k <= j < out.len() ==> entry_lt((out@[j].0 as int, out@[j].1@), (x.0 as int, x.1@)),
        decreases k,
    {
        k = k - 1;
    }
    let ghost xv = (x.0 as int, x.1@);
    out.insert(k, x);
    proof {
        lemma_insert_entry_at(entry_views(before), xv, k as int);
        assert(entry_views(out@) =~= entry_views(before).insert(k as int, xv));
    }
}

fn status_entry_of(content: &ContentPack, state: &WorldState, a: &ActorDefinition, b: &ActorDefinition) -> (r: Option<(i128, String)>)
    requires
        state.wf(),
    ensures
        match r {
            Some(e) => status_entry(content, state, *a, *b) == Some((e.0 as int, e.1@)),
            None => status_entry(content, state, *a, *b) is None,
        },
{
    let defs = &state.pair_stat_defs;
    proof { defs.lemma_contents(); }
    let ghost keys = defs.key_seq();
    let mut score: i128 = 0;
    let mut changed: Vec<String> = Vec::new();
    let mut k: usize = 0;
    while k < defs.len()
        invariant
            state.wf(),
            defs == &state.pair_stat_defs,
            keys == defs.key_seq(),
            k <= keys.len(),
            keys.len() == defs.val_seq().len(),
            forall|i: int| 0 <= i < keys.len() ==> #[trigger] defs@.dom().contains(keys[i]),
            forall|i: int| 0 <= i < keys.len() ==> defs@[#[trigger] keys[i]] == defs.val_seq()[i],
            score as int == pair_score(state, a.id@, b.id@, keys, k as int),
            -(k as int) * 0x2_0000_0000 <= score as int <= (k as int) * 0x2_0000_0000,
            changed@.map_values(|s: String| s@) == changed_stats(state, a.id@, b.id@, keys, k as int),
        decreases keys.len() - k,
    {
        let key = string_from_chars(defs.key_at(k));
        let default = defs.value_at(k).default;
        let value = state.pair_stat(a.id.as_str(), b.id.as_str(), key.as_str());
        let diff: i64 = value as i64 - default as i64;
        let dev: i64 = if diff < 0 { -diff } else { diff };
        assert(k < usize::MAX);
        score = score + dev as i128;
        if value != default {
            let ghost before = changed@;
            let line = string_from_chars(&crate::text::concat_chars(&crate::text::concat_chars(&chars_of(key.as_str()), &chars_of(" ")),
                &i64_chars(value as i64)));
            changed.push(line);
            assert(changed@.map_values(|s: String| s@) =~= before.map_values(|s: String| s@).push(line@));
        }
        k = k + 1;
    }
    if changed.len() == 0 {
        return None;
    }
    let name_a = display_actor_name_for_state(content, state, a.id.as_str());
    let name_b = display_actor_name_for_state(content, state, b.id.as_str());
    let joined = join_texts(&changed, ", ");
    let line = cat(cat(cat(cat(name_a.as_str(), " / ").as_str(), name_b.as_str()).as_str(), ": ").as_str(), joined.as_str());
    Some((score, line))
}

/// One line per pair of actors whose pair stats have moved from their
/// defaults, naming the stats that moved; the most changed pairs first.
pub fn relationship_status_lines(content: &ContentPack, state: &WorldState) -> (r: Vec<String>)
    requires
        state.wf(),
    ensures
        r@.map_values(|s: String| s@) == status_lines(content, state),
{
    let n = content.actors.len();
    let mut entries: Vec<(i128, String)> = Vec::new();
    let mut i: usize = 0;
    while i < n
        invariant
            state.wf(),
            n == content.actors.len(),
            i <= n,
            entry_views(entries@) == sort_entries(status_rows(content, state, i as int)),
        decreases n - i,
    {
        let mut j: usize = i + 1;
        while j < n
            invariant
                state.wf(),
                n == content.actors.len(),
                i < n,
                i + 1 <= j <= n,
                entry_views(entries@) == sort_entries(status_rows(content, state, i as int) + status_row(content, state, i as int, j as int)),
            decreases n - j,
        {
            let ghost s = status_rows(content, state, i as int) + status_row(content, state, i as int, j as int);
            match status_entry_of(content, state, &content.actors[i], &content.actors[j]) {
                Some(e) => {
                    let ghost ev = (e.0 as int, e.1@);
                    insert_status(&mut entries, e);
                    assert(s.push(ev).drop_last() =~= s);
                    assert(status_rows(content, state, i as int) + status_row(content, state, i as int, j as int + 1) =~= s.push(ev));
                },
                None => {
                    assert(status_rows(content, state, i as int) + status_row(content, state, i as int, j as int + 1) =~= s);
                },
            }
            j = j + 1;
        }
        i = i + 1;
    }
    let ghost sorted = entry_views(entries@);
    let mut lines: Vec<String> = Vec::new();
    let mut k: usize = 0;
    while k < entries.len()
        invariant
            k <= entries.len(),
            sorted == entry_views(entries@),
            lines@.map_values(|s: String| s@) == sorted.take(k as int).map_values(|e: (int, Seq<char>)| e.1),
        decreases entries.len() - k,
    {
        let ghost before = lines@;
        let line = string_of(entries[k].1.as_str());
        assert(sorted[k as int].1 == line@);
        lines.push(line);
        proof {
            crate::text::lemma_map_values_push(before, line, |s: String| s@);
            assert(sorted.take(k as int + 1) =~= sorted.take(k as int).push(sorted[k as int]));
            crate::text::lemma_map_values_push(sorted.take(k as int), sorted[k as int], |e: (int, Seq<char>)| e.1);
        }
        k = k + 1;
    }
    assert(sorted.take(entries.len() as int) =~= sorted);
    lines
}

// ------------------------------------------------------------- preview

/// What the first of the first `n` active stages that has one tells of the
/// chapter to come.
pub open spec fn preview_upto(content: &ContentPack, state: &WorldState, n: int) -> Option<Seq<char>>
    decreases n,
{
    if n <= 0 {
        None
    } else {
        match preview_upto(content, state, n - 1) {
            Some(p) => Some(p),
            None => {
                let id = state.active_objective_stage_ids@[n - 1]@;
                let stages = content.beats.stages@;
                if has_stage(stages, id) && story_text(stage_def(stages, id).next_chapter_preview@, state).len() > 0 {
                    Some(story_text(stage_def(stages, id).next_chapter_preview@, state))
                } else {
                    None
                }
            },
        }
    }
}

/// The preview of the next chapter: that of the first active stage that
/// has a non-empty one, rendered against the world.
pub fn current_next_chapter_preview(content: &ContentPack, state: &WorldState) -> (r: Option<String>)
    requires
        state.wf(),
    ensures
        match r {
            Some(t) => preview_upto(content, state, state.active_objective_stage_ids.len() as int) == Some(t@),
            None => preview_upto(content, state, state.active_objective_stage_ids.len() as int) is None,
        },
{
    let ids = &state.active_objective_stage_ids;
    let mut i: usize = 0;
    while i < ids.len()
        invariant
            state.wf(),
            ids == &state.active_objective_stage_ids,
            i <= ids.len(),
            preview_upto(content, state, i as int) is None,
        decreases ids.len() - i,
    {
        match find_stage(content.beats.stages.as_slice(), ids[i].as_str()) {
            Some(k) => {
                proof { lemma_stage_def(content.beats.stages@, ids@[i as int]@, k as int); }
                let preview = render_story_text(content.beats.stages[k].next_chapter_preview.as_str(), state);
                if preview.as_str().unicode_len() > 0 {
                    proof { lemma_preview_found(content, state, i as int + 1, ids.len() as int); }
                    return Some(preview);
                }
            },
            None => {},
        }
        i = i + 1;
    }
    None
}

proof fn lemma_preview_found(content: &ContentPack, state: &WorldState, a: int, b: int)
    requires
        0 <= a <= b,
        preview_upto(content, state, a) is Some,
    ensures
        preview_upto(content, state, b) == preview_upto(content, state, a),
    decreases b - a,
{
    if a < b {
        lemma_preview_found(content, state, a, b - 1);
    }
}

// ---------------------------------------------------------- transcript

/// Whether a trimmed transcript line tells of the chapter: it is not empty
/// and is not an echo of the player's input.
pub open spec fn is_story_line(t: Seq<char>) -> bool {
    t.len() > 0 && t[0] != '>'
}

/// The story lines among the first `n` transcript lines, trimmed.
pub open spec fn story_lines_upto(transcript: Seq<Seq<char>>, n: int) -> Seq<Seq<char>>
    decreases n,
{
    if n <= 0 {
        Seq::empty()
    } else {
        let prev = story_lines_upto(transcript, n - 1);
        let t = crate::text::trim(transcript[n - 1]);
        if is_story_line(t) { prev.push(t) } else { prev }
    }
}

/// The transcript lines that tell of the chapter, trimmed.
pub fn chapter_transcript_lines(transcript: &[String]) -> (r: Vec<String>)
    ensures
        r@.map_values(|s: String| s@) == story_lines_upto(transcript@.map_values(|s: String| s@), transcript.len() as int),
{
    let ghost tv = transcript@.map_values(|s: String| s@);
    let mut out: Vec<String> = Vec::new();
    let mut i: usize = 0;
    while i < transcript.len()
        invariant
            i <= transcript.len(),
            tv == transcript@.map_values(|s: String| s@),
            out@.map_values(|s: String| s@) == story_lines_upto(tv, i as int),
        decreases transcript.len() - i,
    {
        let t = crate::text::trim_chars(transcript[i].as_str());
        assert(tv[i as int] == transcript@[i as int]@);
        if t.len() > 0 && t[0] != '>' {
            let ghost before = out@;
            let s = string_from_chars(&t);
            out.push(s);
            assert(out@.map_values(|s: String| s@) =~= before.map_values(|s: String| s@).push(t@));
        }
        i = i + 1;
    }
    out
}

// --------------------------------------------------------- closing card

/// A section of an act's closing card.
pub enum ActClosureSection {
    Text { title: String, body: String },
    Rating { title: String, value: u32, max: u32 },
}

/// The card shown when an act (or the game) ends.
pub struct ActClosure {
    pub title: String,
    pub subtitle: Option<String>,
    pub sections: Vec<ActClosureSection>,
}

/// What a closing card's summary sections draw on.
pub struct FinalChapterSummary {
    pub what_happened: String,
    pub relationship_status: String,
    pub next_chapter_preview: String,
}

/// A rating of the act, with the words that go with it.
pub struct PerspectiveReview {
    pub rating: u32,
    pub review_text: String,
}

/// A review of the act together with the name of whom it is about.
pub struct CachedPerspectiveReview {
    pub subject_name: String,
    pub review: PerspectiveReview,
}

/// A section as values.
pub enum SectionView {
    Text { title: Seq<char>, body: Seq<char> },
    Rating { title: Seq<char>, value: u32, max: u32 },
}

pub open spec fn section_view(s: ActClosureSection) -> SectionView {
    match s {
        ActClosureSection::Text { title, body } => SectionView::Text { title: title@, body: body@ },
        ActClosureSection::Rating { title, value, max } => SectionView::Rating { title: title@, value, max },
    }
}

pub open spec fn section_views(v: Seq<ActClosureSection>) -> Seq<SectionView> {
    v.map_values(|s: ActClosureSection| section_view(s))
}

/// A summary as values: what happened, relationships, preview.
pub type SummaryView = (Seq<char>, Seq<char>, Seq<char>);

pub open spec fn summary_view(s: FinalChapterSummary) -> SummaryView {
    (s.what_happened@, s.relationship_status@, s.next_chapter_preview@)
}

/// A review as values: subject, rating, text.
pub type ReviewView = (Seq<char>, u32, Seq<char>);

pub open spec fn review_view(r: CachedPerspectiveReview) -> ReviewView {
    (r.subject_name@, r.review.rating, r.review.review_text@)
}

pub open spec fn opt_summary(s: Option<&FinalChapterSummary>) -> Option<SummaryView> {
    match s {
        Some(x) => Some(summary_view(*x)),
        None => None,
    }
}

pub open spec fn opt_review(r: Option<&CachedPerspectiveReview>) -> Option<ReviewView> {
    match r {
        Some(x) => Some(review_view(*x)),
        None => None,
    }
}

pub open spec fn is_summary_source(source: ActClosureSource) -> bool {
    source == ActClosureSource::TranscriptHighlights || source == ActClosureSource::RelationshipSummary
        || source == ActClosureSource::ContinuationPreview
}

pub open spec fn is_perspective_source(source: ActClosureSource) -> bool {
    source == ActClosureSource::PerspectiveRating || source == ActClosureSource::PerspectiveReview
}

/// Whether a closing card has a section drawn from the chapter summary.
pub open spec fn spec_needs_summary(definition: &ActClosureDefinition) -> bool {
    exists|i: int| 0 <= i < definition.sections.len() && is_summary_source(#[trigger] definition.sections@[i].source)
}

/// Whether a closing card has a section drawn from the perspective review.
pub open spec fn spec_needs_perspective(definition: &ActClosureDefinition) -> bool {
    exists|i: int| 0 <= i < definition.sections.len() && is_perspective_source(#[trigger] definition.sections@[i].source)
}

pub fn closure_needs_summary(definition: &ActClosureDefinition) -> (r: bool)
    ensures
        r == spec_needs_summary(definition),
{
    let mut i: usize = 0;
    while i < definition.sections.len()
        invariant
            i <= definition.sections.len(),
            forall|j: int| 0 <= j < i ==> !is_summary_source(#[trigger] definition.sections@[j].source),
        decreases definition.sections.len() - i,
    {
        let source = definition.sections[i].source;
        if source == ActClosureSource::TranscriptHighlights || source == ActClosureSource::RelationshipSummary
            || source == ActClosureSource::ContinuationPreview {
            return true;
        }
        i = i + 1;
    }
    false
}

pub fn closure_needs_perspective(definition: &ActClosureDefinition) -> (r: bool)
    ensures
        r == spec_needs_perspective(definition),
{
    let mut i: usize = 0;
    while i < definition.sections.len()
        invariant
            i <= definition.sections.len(),
            forall|j: int| 0 <= j < i ==> !is_perspective_source(#[trigger] definition.sections@[j].source),
        decreases definition.sections.len() - i,
    {
        let source = definition.sections[i].source;
        if source == ActClosureSource::PerspectiveRating || source == ActClosureSource::PerspectiveReview {
            return true;
        }
        i = i + 1;
    }
    false
}

/// The section a definition gives, when what it draws on is at hand.
pub open spec fn section_for(def: ActClosureSectionDefinition, summary: Option<SummaryView>, review: Option<ReviewView>) -> Option<SectionView> {
    match def.source {
        ActClosureSource::PerspectiveRating => match review {
            Some(r) => Some(SectionView::Rating { title: def.title@, value: r.1, max: 5 }),
            None => None,
        },
        ActClosureSource::PerspectiveReview => match review {
            Some(r) => Some(SectionView::Text { title: def.title@, body: r.2 }),
            None => None,
        },
        ActClosureSource::TranscriptHighlights => match summary {
            Some(s) => Some(SectionView::Text { title: def.title@, body: s.0 }),
            None => None,
        },
        ActClosureSource::RelationshipSummary => match summary {
            Some(s) => Some(SectionView::Text { title: def.title@, body: s.1 }),
            None => None,
        },
        ActClosureSource::ContinuationPreview => match summary {
            Some(s) => Some(SectionView::Text { title: def.title@, body: s.2 }),
            None => None,
        },
    }
}

/// The sections the first `n` definitions give, in order.
pub open spec fn sections_upto(defs: Seq<ActClosureSectionDefinition>, summary: Option<SummaryView>, review: Option<ReviewView>, n: int) -> Seq<SectionView>
    decreases n,
{
    if n <= 0 {
        Seq::empty()
    } else {
        let prev = sections_upto(defs, summary, review, n - 1);
        match section_for(defs[n - 1], summary, review) {
            Some(v) => prev.push(v),
            None => prev,
        }
    }
}

/// Whom the card is about: the reviewed subject, else the given name.
pub open spec fn subject_of(review: Option<ReviewView>, fallback: Option<Seq<char>>) -> Option<Seq<char>> {
    match review {
        Some(r) => Some(r.0),
        None => fallback,
    }
}

/// The card's subtitle: the template with the subject's name filled in,
/// unless the template or the result is blank.
pub open spec fn subtitle_of(template: Seq<char>, subject: Option<Seq<char>>) -> Option<Seq<char>> {
    if crate::text::is_blank(template) {
        None
    } else {
        let name = match subject { Some(n) => n, None => Seq::empty() };
        let t = crate::text::fill_template(template, seq![("subject_name"@, name)], 1);
        if crate::text::is_blank(t) { None } else { Some(t) }
    }
}

/// The card for a definition, given the summary and review at hand and a
/// fallback subject name; `None` when the definition has no title or no
/// section, or when no section has what it draws on.
pub open spec fn closure_card(definition: &ActClosureDefinition, summary: Option<SummaryView>, review: Option<ReviewView>,
    fallback_subject: Option<Seq<char>>) -> Option<(Seq<char>, Option<Seq<char>>, Seq<SectionView>)>
{
    let sections = sections_upto(definition.sections@, summary, review, definition.sections.len() as int);
    if definition.sections.len() == 0 || crate::text::is_blank(definition.title@) || sections.len() == 0 {
        None
    } else {
        Some((definition.title@, subtitle_of(definition.subtitle_template@, subject_of(review, fallback_subject)), sections))
    }
}

pub open spec fn opt_text(t: Option<String>) -> Option<Seq<char>> {
    match t {
        Some(s) => Some(s@),
        None => None,
    }
}

pub open spec fn card_view(c: ActClosure) -> (Seq<char>, Option<Seq<char>>, Seq<SectionView>) {
    (c.title@, opt_text(c.subtitle), section_views(c.sections@))
}

pub open spec fn opt_card(c: Option<ActClosure>) -> Option<(Seq<char>, Option<Seq<char>>, Seq<SectionView>)> {
    match c {
        Some(x) => Some(card_view(x)),
        None => None,
    }
}

fn section_of(def: &ActClosureSectionDefinition, summary: Option<&FinalChapterSummary>, review: Option<&CachedPerspectiveReview>) -> (r: Option<ActClosureSection>)
    ensures
        match r {
            Some(x) => section_for(*def, opt_summary(summary), opt_review(review)) == Some(section_view(x)),
            None => section_for(*def, opt_summary(summary), opt_review(review)) is None,
        },
{
    match def.source {
        ActClosureSource::PerspectiveRating => match review {
            Some(r) => Some(ActClosureSection::Rating { title: def.title.clone(), value: r.review.rating, max: 5 }),
            None => None,
        },
        ActClosureSource::PerspectiveReview => match review {
            Some(r) => Some(ActClosureSection::Text { title: def.title.clone(), body: r.review.review_text.clone() }),
            None => None,
        },
        ActClosureSource::TranscriptHighlights => match summary {
            Some(s) => Some(ActClosureSection::Text { title: def.title.clone(), body: s.what_happened.clone() }),
            None => None,
        },
        ActClosureSource::RelationshipSummary => match summary {
            Some(s) => Some(ActClosureSection::Text { title: def.title.clone(), body: s.relationship_status.clone() }),
            None => None,
        },
        ActClosureSource::ContinuationPreview => match summary {
            Some(s) => Some(ActClosureSection::Text { title: def.title.clone(), body: s.next_chapter_preview.clone() }),
            None => None,
        },
    }
}

/// Builds a closing card from its definition, the chapter summary and the
/// perspective review where they were made, and the name to fall back on
/// for the subject.
pub fn assemble_closure(content: &ContentPack, definition: &ActClosureDefinition, summary: Option<&FinalChapterSummary>,
    review: Option<&CachedPerspectiveReview>, fallback_subject: Option<String>) -> (r: Option<ActClosure>)
    ensures
        opt_card(r) == closure_card(definition, opt_summary(summary), opt_review(review), opt_text(fallback_subject)),
{
    let ghost sv = opt_summary(summary);
    let ghost rv = opt_review(review);
    if definition.sections.len() == 0 || crate::text::text_is_blank(definition.title.as_str()) {
        return None;
    }
    let mut sections: Vec<ActClosureSection> = Vec::new();
    let mut i: usize = 0;
    while i < definition.sections.len()
        invariant
            sv == opt_summary(summary),
            rv == opt_review(review),
            i <= definition.sections.len(),
            section_views(sections@) == sections_upto(definition.sections@, sv, rv, i as int),
        decreases definition.sections.len() - i,
    {
        match section_of(&definition.sections[i], summary, review) {
            Some(x) => {
                let ghost before = sections@;
                let ghost xv = section_view(x);
                sections.push(x);
                assert(section_views(sections@) =~= section_views(before).push(xv));
            },
            None => {},
        }
        i = i + 1;
    }
    if sections.len() == 0 {
        return None;
    }
    let subject: Option<String> = match review {
        Some(r) => Some(r.subject_name.clone()),
        None => fallback_subject,
    };
    let subtitle = if crate::text::text_is_blank(definition.subtitle_template.as_str()) {
        None
    } else {
        let empty = String::new();
        let name: &str = match &subject { Some(n) => n.as_str(), None => empty.as_str() };
        let pairs: Vec<(&str, &str)> = vec![("subject_name", name)];
        let t = content.render_template(definition.subtitle_template.as_str(), pairs.as_slice());
        assert(crate::text::pair_views(pairs@) =~= seq![("subject_name"@, name@)]);
        assert(t@ == crate::text::fill_template(definition.subtitle_template@, seq![("subject_name"@, name@)], 1));
        if crate::text::text_is_blank(t.as_str()) { None } else { Some(t) }
    };
    assert(opt_text(subtitle) == subtitle_of(definition.subtitle_template@, subject_of(rv, opt_text(fallback_subject))));
    assert(section_views(sections@) == sections_upto(definition.sections@, sv, rv, definition.sections.len() as int));
    Some(ActClosure { title: definition.title.clone(), subtitle, sections })
}

/// A deep copy of a closing card.
pub fn copy_closure(c: &ActClosure) -> (r: ActClosure)
    ensures
        card_view(r) == card_view(*c),
{
    let mut sections: Vec<ActClosureSection> = Vec::new();
    let mut i: usize = 0;
    while i < c.sections.len()
        invariant
            i <= c.sections.len(),
            section_views(sections@) == section_views(c.sections@.take(i as int)),
        decreases c.sections.len() - i,
    {
        let x = match &c.sections[i] {
            ActClosureSection::Text { title, body } => ActClosureSection::Text { title: title.clone(), body: body.clone() },
            ActClosureSection::Rating { title, value, max } => ActClosureSection::Rating { title: title.clone(), value: *value, max: *max },
        };
        assert(section_view(x) == section_view(c.sections@[i as int]));
        let ghost before = sections@;
        sections.push(x);
        proof {
            crate::text::lemma_map_values_push(before, x, |s: ActClosureSection| section_view(s));
            crate::text::lemma_map_values_push(c.sections@.take(i as int), c.sections@[i as int], |s: ActClosureSection| section_view(s));
        }
        assert(c.sections@.take(i as int + 1) =~= c.sections@.take(i as int).push(c.sections@[i as int]));
        assert(section_views(sections@) =~= section_views(c.sections@.take(i as int + 1)));
        i = i + 1;
    }
    assert(c.sections@.take(c.sections.len() as int) =~= c.sections@);
    let subtitle = match &c.subtitle {
        Some(t) => Some(t.clone()),
        None => None,
    };
    ActClosure { title: c.title.clone(), subtitle, sections }
}

/// The summary a closing card draws on: the script summary when the
/// chapter has story lines (otherwise the pack's wording for none), the
/// relationship summary when any pair has moved (otherwise the pack's
/// wording for none), and the next chapter's preview or the pack's default.
pub open spec fn chapter_summary(content: &ContentPack, state: &WorldState, transcript: Seq<Seq<char>>,
    script_summary: Seq<char>, relationship_summary: Seq<char>) -> SummaryView
{
    let story = story_lines_upto(transcript, transcript.len() as int);
    (
        if story.len() == 0 { content.ui_text.act_closure_empty_highlights@ } else { script_summary },
        if status_lines(content, state).len() == 0 { content.ui_text.act_closure_empty_relationships@ } else { relationship_summary },
        match preview_upto(content, state, state.active_objective_stage_ids.len() as int) {
            Some(p) => p,
            None => content.ui_text.final_summary_empty_preview@,
        },
    )
}

/// The chapter summary, given what the summarizer made of the chapter's
/// story lines and of its relationship lines; each is used only where
/// there was something to summarize.
pub fn final_chapter_summary(content: &ContentPack, state: &WorldState, transcript_lines: &[String],
    script_summary: String, relationship_summary: String) -> (r: FinalChapterSummary)
    requires
        state.wf(),
    ensures
        summary_view(r) == chapter_summary(content, state, transcript_lines@.map_values(|s: String| s@), script_summary@, relationship_summary@),
{
    let story = chapter_transcript_lines(transcript_lines);
    let relationship_lines = relationship_status_lines(content, state);
    let preview = match current_next_chapter_preview(content, state) {
        Some(p) => p,
        None => content.ui_text.final_summary_empty_preview.clone(),
    };
    let what_happened = if story.len() == 0 { content.ui_text.act_closure_empty_highlights.clone() } else { script_summary };
    let relationship_status = if relationship_lines.len() == 0 {
        content.ui_text.act_closure_empty_relationships.clone()
    } else {
        relationship_summary
    };
    FinalChapterSummary { what_happened, relationship_status, next_chapter_preview: preview }
}

// ---------------------------------------------------------- perspective

/// The actor whose view the closing review gives: the one the pack names,
/// when it names one of its actors.
pub open spec fn perspective_actor(content: &ContentPack) -> Option<Seq<char>> {
    let id = content.settings.closure_perspective_actor_id@;
    if id.len() > 0 && exists|i: int| 0 <= i < content.actors.len() && (#[trigger] content.actors@[i]).id@ == id {
        Some(id)
    } else {
        None
    }
}

pub fn pick_perspective_actor_id(content: &ContentPack) -> (r: Option<String>)
    ensures
        opt_text(r) == perspective_actor(content),
{
    let id = content.settings.closure_perspective_actor_id.as_str();
    if id.is_empty() {
        return None;
    }
    let mut i: usize = 0;
    while i < content.actors.len()
        invariant
            i <= content.actors.len(),
            id@.len() > 0,
            id@ == content.settings.closure_perspective_actor_id@,
            forall|j: int| 0 <= j < i ==> (#[trigger] content.actors@[j]).id@ != id@,
        decreases content.actors.len() - i,
    {
        if str_eq(content.actors[i].id.as_str(), id) {
            assert(content.actors@[i as int].id@ == id@);
            return Some(string_of(id));
        }
        i = i + 1;
    }
    None
}

/// A stat's value in a snapshot, or zero when absent.
pub open spec fn value_or_zero(m: Map<Seq<char>, i32>, key: Seq<char>) -> int {
    if m.dom().contains(key) { m[key] as int } else { 0 }
}

/// The standing of the act from the stats alone: the gains in trust,
/// openness and energy, less the gain in resistance, plus twice the
/// secrets found.
pub open spec fn fallback_net(current: Map<Seq<char>, i32>, deltas: Map<Seq<char>, i32>) -> int {
    value_or_zero(deltas, "trust"@) + value_or_zero(deltas, "openness"@) - value_or_zero(deltas, "resistance"@)
        + value_or_zero(deltas, "energy"@) + value_or_zero(current, "secrets_found"@) * 2
}

/// A rating out of five from the net standing.
pub open spec fn rating_for(net: int) -> u32 {
    if net >= 8 { 5 } else if net >= 4 { 4 } else if net >= 0 { 3 } else if net >= -4 { 2 } else { 1 }
}

pub open spec fn fits_i32(x: int) -> bool {
    i32::MIN <= x <= i32::MAX
}

/// The fallback standing weighs each recorded gain: trust, openness and
/// energy count once each, resistance counts against, each secret found
/// counts twice, and nothing else counts. With nothing recorded the
/// standing is zero.
pub proof fn law_fallback_standing_weights(current: Map<Seq<char>, i32>, deltas: Map<Seq<char>, i32>, key: Seq<char>, v: i32, w: i32)
    ensures
        ({
            let diff = fallback_net(current, deltas.insert(key, w)) - fallback_net(current, deltas.insert(key, v));
            &&& key == "trust"@ || key == "openness"@ || key == "energy"@ ==> diff == w - v
            &&& key == "resistance"@ ==> diff == v - w
            &&& key != "trust"@ && key != "openness"@ && key != "energy"@ && key != "resistance"@ ==> diff == 0
        }),
        fallback_net(current.insert("secrets_found"@, w), deltas) - fallback_net(current.insert("secrets_found"@, v), deltas) == 2 * (w - v),
        fallback_net(Map::empty(), Map::empty()) == 0,
{
    reveal_strlit("trust");
    reveal_strlit("openness");
    reveal_strlit("energy");
    reveal_strlit("resistance");
    let t = "trust"@;
    let o = "openness"@;
    let e = "energy"@;
    let r = "resistance"@;
    assert(t.len() != o.len() && t.len() != e.len() && t.len() != r.len());
    assert(o.len() != e.len() && o.len() != r.len() && e.len() != r.len());
    assert(t != o && t != e && t != r && o != e && o != r && e != r);
    let d1 = deltas.insert(key, v);
    let d2 = deltas.insert(key, w);
    if key == t || key == o || key == e {
        assert(fallback_net(current, d2) - fallback_net(current, d1) == w - v);
    } else if key == r {
        assert(fallback_net(current, d2) - fallback_net(current, d1) == v - w);
    } else {
        assert(fallback_net(current, d2) == fallback_net(current, d1));
    }
}

/// The rating never falls as the standing rises: one star below -4, two up
/// to -1, three from 0 to 3, four from 4 to 7, five from 8.
pub proof fn law_rating_follows_standing(n: int, m: int)
    ensures
        n <= m ==> rating_for(n) <= rating_for(m),
        1 <= rating_for(n) <= 5,
        rating_for(n) == 3 <==> 0 <= n < 4,
        rating_for(n) == 4 <==> 4 <= n < 8,
        rating_for(n) == 5 <==> n >= 8,
        rating_for(n) == 2 <==> -4 <= n < 0,
        rating_for(n) == 1 <==> n < -4,
{
}

/// The rating given when none was written: a rating from the stats
/// alone, with no text.
pub fn fallback_perspective_review(current: &crate::smap::StrMap<i32>, deltas: &crate::smap::StrMap<i32>) -> (r: PerspectiveReview)
    requires
        current.wf(),
        deltas.wf(),
        fits_i32(value_or_zero(deltas@, "trust"@) + value_or_zero(deltas@, "openness"@)),
        fits_i32(value_or_zero(deltas@, "trust"@) + value_or_zero(deltas@, "openness"@) - value_or_zero(deltas@, "resistance"@)),
        fits_i32(value_or_zero(deltas@, "trust"@) + value_or_zero(deltas@, "openness"@) - value_or_zero(deltas@, "resistance"@)
            + value_or_zero(deltas@, "energy"@)),
        fits_i32(value_or_zero(current@, "secrets_found"@) * 2),
        fits_i32(fallback_net(current@, deltas@)),
    ensures
        r.rating == rating_for(fallback_net(current@, deltas@)),
        r.review_text@ == Seq::<char>::empty(),
{
    let trust_delta: i32 = match deltas.get_str("trust") { Some(v) => *v, None => 0 };
    let openness_delta: i32 = match deltas.get_str("openness") { Some(v) => *v, None => 0 };
    let resistance_delta: i32 = match deltas.get_str("resistance") { Some(v) => *v, None => 0 };
    let energy_delta: i32 = match deltas.get_str("energy") { Some(v) => *v, None => 0 };
    let secrets_found: i32 = match current.get_str("secrets_found") { Some(v) => *v, None => 0 };
    let net: i32 = trust_delta + openness_delta - resistance_delta + energy_delta + secrets_found * 2;
    let rating: u32 = if net >= 8 {
        5
    } else if net >= 4 {
        4
    } else if net >= 0 {
        3
    } else if net >= -4 {
        2
    } else {
        1
    };
    PerspectiveReview { rating, review_text: String::new() }
}

} // verus!

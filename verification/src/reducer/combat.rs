use vstd::prelude::*;
use crate::content::{AllyAttackMode, AllyAttackParticipants, ContentPack, LevelDefinition, XpDistributionMode, XpRecipientMode};
use crate::state::ActorStance;
use crate::narrative::{NarrativeLineKind, NarrativeLines};
use super::feedback::message_seq;
use crate::smap::StrMap;
use crate::state::{GamePhase, WorldState};
use crate::text::{chars_of, lemma_map_values_push, lex_lt, string_from_chars, string_of};
use super::observation::{render_story_text, story_text};
use super::summaries::{spec_summary, strictly_sorted, summary_or_empty};
use crate::closure::name_for;

verus! {

/// An actor's name as shown: the authored name, or the id when the pack
/// does not know the actor.
pub open spec fn display_name(content: &ContentPack, actor_id: Seq<char>) -> Seq<char> {
    if content.has_actor(actor_id) { content.spec_actor(actor_id).name@ } else { actor_id }
}

pub fn actor_display_name(content: &ContentPack, actor_id: &str) -> (r: String)
    ensures
        r@ == display_name(content, actor_id@),
{
    match content.actor(actor_id) {
        Some(actor) => actor.name.clone(),
        None => string_of(actor_id),
    }
}


/// The resistance an actor has to a kind of damage; none when unknown.
pub open spec fn resistance_of(content: &ContentPack, actor_id: Seq<char>, kind: Seq<char>) -> int {
    if content.has_actor(actor_id) && content.spec_actor(actor_id).resistances@.dom().contains(kind) {
        content.spec_actor(actor_id).resistances@[kind] as int
    } else {
        0
    }
}

/// Damage after the target's resistance to its kind: each point of
/// resistance removes one point, never below zero; negative resistance
/// amplifies.
pub open spec fn spec_resisted_damage(content: &ContentPack, target_actor_id: Seq<char>, kind: Seq<char>, damage: int) -> int {
    let d = damage - resistance_of(content, target_actor_id, kind);
    if d > 0 { d } else { 0 }
}

pub fn resisted_damage(content: &ContentPack, target_actor_id: &str, kind: &str, damage: i32) -> (r: i32)
    requires
        content.wf(),
        i32::MIN <= damage - resistance_of(content, target_actor_id@, kind@) <= i32::MAX,
    ensures
        r as int == spec_resisted_damage(content, target_actor_id@, kind@, damage as int),
{
    let resistance = match content.actor(target_actor_id) {
        Some(actor) => {
            proof { content.lemma_actor_wf(target_actor_id@); }
            match actor.resistances.get_str(kind) {
                Some(r) => *r,
                None => 0,
            }
        },
        None => 0,
    };
    let d = damage - resistance;
    if d > 0 { d } else { 0 }
}

/// The experience each of `count` recipients receives out of `xp`: all of it
/// each, or an even split whose remainder goes one point each to the first
/// recipients.
pub open spec fn xp_share(xp: nat, count: nat, mode: XpDistributionMode, index: int) -> nat {
    match mode {
        XpDistributionMode::FullEach => xp,
        XpDistributionMode::SplitEvenly => xp / count + if index < (xp % count) as int { 1nat } else { 0nat },
    }
}

pub fn distribute_xp(xp: u32, recipient_count: usize, mode: XpDistributionMode) -> (r: Vec<u32>)
    requires
        recipient_count <= u32::MAX,
    ensures
        r.len() == recipient_count,
        forall|i: int| 0 <= i < r.len() ==> #[trigger] r@[i] as nat == xp_share(xp as nat, recipient_count as nat, mode, i),
{
    let mut out: Vec<u32> = Vec::new();
    if recipient_count == 0 {
        return out;
    }
    let count = recipient_count as u32;
    let base = xp / count;
    let remainder = xp % count;
    let mut i: usize = 0;
    while i < recipient_count
        invariant
            i <= recipient_count,
            count as nat == recipient_count as nat,
            count > 0,
            base == xp / count,
            remainder == xp % count,
            out.len() == i,
            forall|j: int| 0 <= j < i ==> #[trigger] out@[j] as nat == xp_share(xp as nat, recipient_count as nat, mode, j),
        decreases recipient_count - i,
    {
        let share = match mode {
            XpDistributionMode::FullEach => xp,
            XpDistributionMode::SplitEvenly => {
                if (i as u32) < remainder {
                    assert(remainder < count) by (nonlinear_arith) requires remainder == xp % count, count > 0;
                    assert(base + 1 <= u32::MAX) by (nonlinear_arith) requires base == xp / count, count >= 2, xp <= u32::MAX;
                    base + 1
                } else {
                    base
                }
            },
        };
        out.push(share);
        i = i + 1;
    }
    out
}

/// The followers (other than the player) among the first `n` of the given
/// relationship keys, in order.
pub open spec fn followers_upto(state: &WorldState, player: Seq<char>, keys: Seq<Seq<char>>, n: int) -> Seq<Seq<char>>
    decreases n,
{
    if n <= 0 {
        Seq::empty()
    } else {
        let prev = followers_upto(state, player, keys, n - 1);
        let k = keys[n - 1];
        if k != player && state.relationships@[k].follows_player { prev.push(k) } else { prev }
    }
}

/// Who receives a defeated actor's experience: the player, then, when the
/// pack shares it with the party, every follower in id order.
pub open spec fn spec_xp_recipients(state: &WorldState, content: &ContentPack) -> Seq<Seq<char>> {
    let player = content.settings.combat.player_actor_id@;
    match content.settings.combat.xp_distribution.recipients {
        XpRecipientMode::PlayerOnly => seq![player],
        XpRecipientMode::PlayerAndFollowers => {
            let keys = state.relationships.key_seq();
            seq![player] + followers_upto(state, player, keys, keys.len() as int)
        },
    }
}

proof fn lemma_followers_in_keys(state: &WorldState, player: Seq<char>, keys: Seq<Seq<char>>, n: int)
    requires
        0 <= n <= keys.len(),
        forall|a: int, b: int| 0 <= a < b < keys.len() ==> lex_lt(#[trigger] keys[a], #[trigger] keys[b]),
    ensures
        forall|a: int| 0 <= a < followers_upto(state, player, keys, n).len() ==>
            (#[trigger] followers_upto(state, player, keys, n)[a]) != player,
        forall|a: int, b: int| 0 <= a < b < followers_upto(state, player, keys, n).len() ==>
            lex_lt(#[trigger] followers_upto(state, player, keys, n)[a], #[trigger] followers_upto(state, player, keys, n)[b]),
        forall|a: int| 0 <= a < followers_upto(state, player, keys, n).len() ==>
            exists|b: int| 0 <= b < n && keys[b] == #[trigger] followers_upto(state, player, keys, n)[a],
    decreases n,
{
    if n > 0 {
        lemma_followers_in_keys(state, player, keys, n - 1);
        let prev = followers_upto(state, player, keys, n - 1);
        let cur = followers_upto(state, player, keys, n);
        if cur.len() > prev.len() {
            assert forall|a: int| 0 <= a < prev.len() implies lex_lt(#[trigger] cur[a], keys[n - 1]) by {
                assert(cur[a] == prev[a]);
                let b = choose|b: int| 0 <= b < n - 1 && keys[b] == prev[a];
            }
        }
    }
}

pub fn xp_recipients(state: &WorldState, content: &ContentPack) -> (r: Vec<String>)
    requires
        state.wf(),
    ensures
        r@.map_values(|s: String| s@) == spec_xp_recipients(state, content),
{
    let player = &content.settings.combat.player_actor_id;
    let mut out: Vec<String> = Vec::new();
    out.push(player.clone());
    let ghost first = out@;
    assert(first.map_values(|s: String| s@) =~= seq![player@]);
    match content.settings.combat.xp_distribution.recipients {
        XpRecipientMode::PlayerOnly => out,
        XpRecipientMode::PlayerAndFollowers => {
            let ghost keys = state.relationships.key_seq();
            let n = state.relationships.len();
            let player_chars = chars_of(player.as_str());
            let mut i: usize = 0;
            proof { state.relationships.lemma_contents(); }
            while i < n
                invariant
                    state.wf(),
                    keys == state.relationships.key_seq(),
                    n == keys.len(),
                    i <= n,
                    player_chars@ == player@,
                    forall|a: int| 0 <= a < keys.len() ==> #[trigger] state.relationships@.dom().contains(keys[a]),
                    forall|a: int| 0 <= a < keys.len() ==> state.relationships@[keys[a]] == #[trigger] state.relationships.val_seq()[a],
                    out@.map_values(|s: String| s@) == seq![player@] + followers_upto(state, player@, keys, i as int),
                decreases n - i,
            {
                let key = state.relationships.key_at(i);
                let rel = state.relationships.value_at(i);
                if !crate::text::chars_eq(key, &player_chars) && rel.follows_player {
                    let ghost before = out@;
                    let item = string_from_chars(key);
                    out.push(item);
                    proof {
                        lemma_map_values_push(before, item, |s: String| s@);
                    }
                }
                i = i + 1;
            }
            out
        },
    }
}

/// The level and leftover experience reached from `level` with `accrued`
/// experience, climbing the table while the experience covers each step.
pub open spec fn settle_level(table: Seq<LevelDefinition>, level: int, accrued: int) -> (int, int)
    decreases table.len() + 1 - level,
{
    if 1 <= level <= table.len() && accrued >= table[level - 1].exp_required {
        settle_level(table, level + 1, accrued - table[level - 1].exp_required)
    } else {
        (level, accrued)
    }
}

/// Whether every level table is shorter than the largest level number.
pub open spec fn level_tables_bounded(content: &ContentPack) -> bool {
    &&& content.levels.default.len() < u32::MAX
    &&& forall|k: Seq<char>| #[trigger] content.levels.actors@.dom().contains(k) ==> content.levels.actors@[k].len() < u32::MAX
}

/// `x + y`, or the largest `u32` when that does not fit.
pub open spec fn saturating_add_u32(x: int, y: int) -> int {
    if x + y > u32::MAX { u32::MAX as int } else { x + y }
}

/// An actor's stat once the growth named by the first `n` keys of a level
/// has applied: a named, declared stat of the actor moves by its change
/// (clamped to the stat's range) unless that would leave the range of `i32`;
/// every other stat stays.
pub open spec fn grown_stat(state: &WorldState, actor_id: Seq<char>, keys: Seq<Seq<char>>, changes: Map<Seq<char>, i32>, n: int,
    a: Seq<char>, k: Seq<char>) -> int {
    let v = state.spec_actor_stat(a, k);
    if state.spec_remap(a) == state.spec_remap(actor_id) && keys.take(n).contains(k) && state.actor_stat_defs@.dom().contains(k)
        && i32::MIN <= v + changes[k] <= i32::MAX {
        state.actor_stat_defs@[k].spec_clamp(v + changes[k])
    } else {
        v
    }
}

/// One level's growth applied to the value `v` of stat `k` of actor `a`,
/// when the level belongs to `actor_id`: a stat the level changes, that is
/// declared and that stays within `i32`, moves by the change within its
/// bounds; any other value stays.
pub open spec fn level_growth(state: &WorldState, actor_id: Seq<char>, def: LevelDefinition, a: Seq<char>, k: Seq<char>, v: int) -> int {
    let ch = def.stat_changes@;
    if state.spec_remap(a) == state.spec_remap(actor_id) && ch.dom().contains(k) && state.actor_stat_defs@.dom().contains(k)
        && i32::MIN <= v + ch[k] <= i32::MAX {
        state.actor_stat_defs@[k].spec_clamp(v + ch[k])
    } else {
        v
    }
}

/// The value `v` of stat `k` of actor `a` after `actor_id` climbs from level
/// `from` to level `to`: the growth of each level passed, in order.
pub open spec fn grow_levels(state: &WorldState, actor_id: Seq<char>, table: Seq<LevelDefinition>, from: int, to: int,
    a: Seq<char>, k: Seq<char>, v: int) -> int
    decreases to - from,
{
    if to <= from { v } else { level_growth(state, actor_id, table[to - 2], a, k, grow_levels(state, actor_id, table, from, to - 1, a, k, v)) }
}

proof fn lemma_grow_levels_same(s1: &WorldState, s2: &WorldState, actor_id: Seq<char>, table: Seq<LevelDefinition>, from: int, to: int,
    a: Seq<char>, k: Seq<char>, v: int)
    requires
        s1.story_vars == s2.story_vars,
        s1.actor_stat_defs == s2.actor_stat_defs,
    ensures
        grow_levels(s1, actor_id, table, from, to, a, k, v) == grow_levels(s2, actor_id, table, from, to, a, k, v),
    decreases to - from,
{
    if to > from {
        lemma_grow_levels_same(s1, s2, actor_id, table, from, to - 1, a, k, v);
    }
}

/// Applies a level's stat growth to an actor; a change that names an
/// undeclared stat, or that would leave the range of `i32`, is skipped.
fn apply_level_growth(state: &mut WorldState, actor_id: &str, changes: &StrMap<i32>)
    requires
        old(state).wf(),
        changes.wf(),
    ensures
        final(state).wf(),
        *final(state) == (WorldState { actor_stats: final(state).actor_stats, ..*old(state) }),
        forall|a: Seq<char>, k: Seq<char>| #[trigger] final(state).spec_actor_stat(a, k)
            == grown_stat(old(state), actor_id@, changes.key_seq(), changes@, changes.key_seq().len() as int, a, k),
{
    let n = changes.len();
    let ghost keys = changes.key_seq();
    proof { changes.lemma_contents(); }
    let mut i: usize = 0;
    while i < n
        invariant
            state.wf(),
            changes.wf(),
            keys == changes.key_seq(),
            n == keys.len(),
            i <= n,
            forall|x: int, y: int| 0 <= x < y < keys.len() ==> lex_lt(#[trigger] keys[x], #[trigger] keys[y]),
            forall|x: int| 0 <= x < keys.len() ==> changes@[#[trigger] keys[x]] == changes.val_seq()[x],
            *state == (WorldState { actor_stats: state.actor_stats, ..*old(state) }),
            forall|a: Seq<char>, k: Seq<char>| #[trigger] state.spec_actor_stat(a, k)
                == grown_stat(old(state), actor_id@, keys, changes@, i as int, a, k),
        decreases n - i,
    {
        let stat = string_from_chars(changes.key_at(i));
        let delta = *changes.value_at(i);
        let ghost ki = keys[i as int];
        proof {
            assert(!keys.take(i as int).contains(ki)) by {
                if keys.take(i as int).contains(ki) {
                    let j = choose|j: int| 0 <= j < i && keys.take(i as int)[j] == ki;
                    assert(keys[j] == ki);
                    assert(lex_lt(keys[j], keys[i as int]));
                    crate::text::lemma_lex_irrefl(ki);
                }
            }
            assert forall|k: Seq<char>| k != ki implies keys.take(i as int + 1).contains(k) == keys.take(i as int).contains(k) by {
                assert(keys.take(i as int + 1) =~= keys.take(i as int).push(ki));
            }
            assert(keys.take(i as int + 1) =~= keys.take(i as int).push(ki));
            assert(keys.take(i as int + 1)[i as int] == ki);
            assert(keys.take(i as int + 1).contains(ki));
        }
        let ghost mid = *state;
        if state.actor_stat_defs.contains_str(stat.as_str()) {
            let current = state.actor_stat(actor_id, stat.as_str()) as i64;
            let next = current + delta as i64;
            if next >= i32::MIN as i64 && next <= i32::MAX as i64 {
                let _ = state.adjust_actor_stat(actor_id, stat.as_str(), delta);
                proof {
                    assert forall|a: Seq<char>, k: Seq<char>| #[trigger] state.spec_actor_stat(a, k)
                        == grown_stat(old(state), actor_id@, keys, changes@, i as int + 1, a, k) by {
                        assert(mid.spec_actor_stat(a, k) == grown_stat(old(state), actor_id@, keys, changes@, i as int, a, k));
                        if old(state).spec_remap(a) == old(state).spec_remap(actor_id@) && k == ki {
                            assert(mid.spec_actor_stat(actor_id@, k) == grown_stat(old(state), actor_id@, keys, changes@, i as int, actor_id@, k));
                            assert(state.spec_actor_stat(a, k) == state.spec_actor_stat(actor_id@, k));
                        }
                    }
                }
            } else {
                proof {
                    assert forall|a: Seq<char>, k: Seq<char>| #[trigger] state.spec_actor_stat(a, k)
                        == grown_stat(old(state), actor_id@, keys, changes@, i as int + 1, a, k) by {
                        assert(mid.spec_actor_stat(a, k) == grown_stat(old(state), actor_id@, keys, changes@, i as int, a, k));
                        if old(state).spec_remap(a) == old(state).spec_remap(actor_id@) && k == ki {
                            assert(mid.spec_actor_stat(actor_id@, k) == grown_stat(old(state), actor_id@, keys, changes@, i as int, actor_id@, k));
                        }
                    }
                }
            }
        } else {
            proof {
                assert forall|a: Seq<char>, k: Seq<char>| #[trigger] state.spec_actor_stat(a, k)
                    == grown_stat(old(state), actor_id@, keys, changes@, i as int + 1, a, k) by {
                    assert(mid.spec_actor_stat(a, k) == grown_stat(old(state), actor_id@, keys, changes@, i as int, a, k));
                }
            }
        }
        i = i + 1;
    }
}

/// Credits `award` experience to one actor and climbs its level table;
/// returns whether it gained a level.
fn credit_experience(state: &mut WorldState, content: &ContentPack, target: &str, award: u32) -> (gained: bool)
    requires
        old(state).wf(),
        content.wf(),
        level_tables_bounded(content),
    ensures
        final(state).wf(),
        ({
            let start = settle_level(content.spec_level_table(target@), old(state).spec_actor_level(target@) as int,
                saturating_add_u32(old(state).spec_actor_xp(target@) as int, award as int));
            &&& final(state).actor_xp@ == old(state).actor_xp@.insert(target@, final(state).actor_xp@[target@])
            &&& final(state).actor_xp@[target@] as int == start.1
            &&& final(state).actor_level@ == old(state).actor_level@.insert(target@, final(state).actor_level@[target@])
            &&& final(state).actor_level@[target@] as int == start.0
            &&& gained == (start.0 > old(state).spec_actor_level(target@))
            &&& forall|a: Seq<char>, k: Seq<char>| #[trigger] final(state).spec_actor_stat(a, k)
                == grow_levels(old(state), target@, content.spec_level_table(target@), old(state).spec_actor_level(target@) as int,
                    start.0, a, k, old(state).spec_actor_stat(a, k))
        }),
        *final(state) == (WorldState { actor_stats: final(state).actor_stats, actor_xp: final(state).actor_xp,
            actor_level: final(state).actor_level, ..*old(state) }),
{
    let ghost table = content.spec_level_table(target@);
    let mut accrued = state.actor_xp(target).saturating_add(award);
    let start_level = state.actor_level(target);
    let mut level = start_level;
    let ghost goal = settle_level(table, start_level as int, accrued as int);
    loop
        invariant
            state.wf(),
            content.wf(),
            level_tables_bounded(content),
            table == content.spec_level_table(target@),
            1 <= start_level <= level,
            settle_level(table, level as int, accrued as int) == goal,
            *state == (WorldState { actor_stats: state.actor_stats, actor_level: state.actor_level, ..*old(state) }),
            level > start_level ==> state.actor_level@ == old(state).actor_level@.insert(target@, level),
            level == start_level ==> state.actor_level@ == old(state).actor_level@,
            start_level == old(state).spec_actor_level(target@),
            forall|a: Seq<char>, k: Seq<char>| #[trigger] state.spec_actor_stat(a, k)
                == grow_levels(old(state), target@, table, start_level as int, level as int, a, k, old(state).spec_actor_stat(a, k)),
        ensures
            settle_level(table, level as int, accrued as int) == (level as int, accrued as int),
            settle_level(table, level as int, accrued as int) == goal,
            1 <= start_level <= level,
            state.wf(),
            *state == (WorldState { actor_stats: state.actor_stats, actor_level: state.actor_level, ..*old(state) }),
            level > start_level ==> state.actor_level@ == old(state).actor_level@.insert(target@, level),
            level == start_level ==> state.actor_level@ == old(state).actor_level@,
            forall|a: Seq<char>, k: Seq<char>| #[trigger] state.spec_actor_stat(a, k)
                == grow_levels(old(state), target@, table, start_level as int, level as int, a, k, old(state).spec_actor_stat(a, k)),
        decreases table.len() + 1 - level,
    {
        let ghost top = *state;
        let definition = match content.level_definition(target, level) {
            Some(d) => d,
            None => break,
        };
        if accrued < definition.exp_required {
            break;
        }
        proof {
            if content.levels.actors@.dom().contains(target@) {
                assert(content.levels.actors@[target@].len() < u32::MAX);
            }
        }
        accrued = accrued - definition.exp_required;
        level = level + 1;
        state.actor_level.insert_str(target, level);
        proof {
            assert(definition.stat_changes.wf()) by {
                if content.levels.actors@.dom().contains(target@) {
                    assert(content.levels.actors@[target@]@[level - 2] == *definition);
                } else {
                    assert(content.levels.default@[level - 2] == *definition);
                }
            }
        }
        let ghost mid = *state;
        apply_level_growth(state, target, &definition.stat_changes);
        proof {
            let ch = definition.stat_changes;
            ch.lemma_contents();
            assert(ch.key_seq().take(ch.key_seq().len() as int) =~= ch.key_seq());
            assert(*definition == table[level - 2]);
            assert forall|a: Seq<char>, k: Seq<char>| #[trigger] state.spec_actor_stat(a, k)
                == grow_levels(old(state), target@, table, start_level as int, level as int, a, k, old(state).spec_actor_stat(a, k)) by {
                assert(state.spec_actor_stat(a, k) == grown_stat(&mid, target@, ch.key_seq(), ch@, ch.key_seq().len() as int, a, k));
                assert(top.spec_actor_stat(a, k) == grow_levels(old(state), target@, table, start_level as int, level - 1, a, k,
                    old(state).spec_actor_stat(a, k)));
                assert(mid.spec_actor_stat(a, k) == top.spec_actor_stat(a, k));
                if ch@.dom().contains(k) {
                    let q = choose|q: int| 0 <= q < ch.key_seq().len() && ch.key_seq()[q] == k;
                    assert(ch.key_seq()[q] == k);
                }
            }
        }
    }
    let ghost climbed = *state;
    state.actor_xp.insert_str(target, accrued);
    state.actor_level.insert_str(target, level);
    proof {
        assert forall|a: Seq<char>, k: Seq<char>| #[trigger] state.spec_actor_stat(a, k) == climbed.spec_actor_stat(a, k) by {}
        if level == start_level {
            assert(state.actor_level@ =~= old(state).actor_level@.insert(target@, level));
        } else {
            assert(state.actor_level@ =~= old(state).actor_level@.insert(target@, level));
        }
    }
    level > start_level
}


/// Whether the ids are pairwise distinct.
pub open spec fn all_distinct(ids: Seq<Seq<char>>) -> bool {
    forall|a: int, b: int| 0 <= a < ids.len() && 0 <= b < ids.len() && a != b ==> #[trigger] ids[a] != #[trigger] ids[b]
}

proof fn lemma_recipients_distinct(state: &WorldState, content: &ContentPack)
    requires
        state.wf(),
    ensures
        all_distinct(spec_xp_recipients(state, content)),
{
    let player = content.settings.combat.player_actor_id@;
    let keys = state.relationships.key_seq();
    state.relationships.lemma_contents();
    lemma_followers_in_keys(state, player, keys, keys.len() as int);
    let f = followers_upto(state, player, keys, keys.len() as int);
    let r = spec_xp_recipients(state, content);
    assert forall|a: int, b: int| 0 <= a < r.len() && 0 <= b < r.len() && a != b implies #[trigger] r[a] != #[trigger] r[b] by {
        match content.settings.combat.xp_distribution.recipients {
            XpRecipientMode::PlayerOnly => {},
            XpRecipientMode::PlayerAndFollowers => {
                if a == 0 {
                    assert(r[b] == f[b - 1]);
                } else if b == 0 {
                    assert(r[a] == f[a - 1]);
                } else if a < b {
                    assert(lex_lt(f[a - 1], f[b - 1]));
                    crate::text::lemma_lex_irrefl(f[a - 1]);
                } else {
                    assert(lex_lt(f[b - 1], f[a - 1]));
                    crate::text::lemma_lex_irrefl(f[b - 1]);
                }
            },
        }
    }
}

/// Whether an actor's experience and level are as they were.
pub open spec fn xp_untouched(before: &WorldState, after: &WorldState, k: Seq<char>) -> bool {
    &&& after.actor_xp@.dom().contains(k) == before.actor_xp@.dom().contains(k)
    &&& after.actor_xp@[k] == before.actor_xp@[k]
    &&& after.actor_level@.dom().contains(k) == before.actor_level@.dom().contains(k)
    &&& after.actor_level@[k] == before.actor_level@[k]
}

/// Whether one of the first `i` recipients received a share.
pub open spec fn credited_among(recipients: Seq<Seq<char>>, awards: Seq<u32>, i: int, k: Seq<char>) -> bool {
    exists|q: int| 0 <= q < i && recipients[q] == k && awards[q] > 0
}

/// What crediting a defeated actor's experience leaves for one recipient:
/// its new experience and level when it received a share, otherwise what it
/// had.
pub open spec fn credited(before: &WorldState, content: &ContentPack, id: Seq<char>, award: nat) -> (int, int) {
    settle_level(content.spec_level_table(id), before.spec_actor_level(id) as int,
        saturating_add_u32(before.spec_actor_xp(id) as int, award as int))
}

/// The recipients among the first `n` whose share lifts them to a higher
/// level, with the level they reach, in recipient order.
pub open spec fn leveled_upto(before: &WorldState, content: &ContentPack, recipients: Seq<Seq<char>>, xp: nat, n: int)
    -> Seq<(Seq<char>, u32)>
    decreases n,
{
    if n <= 0 {
        Seq::empty()
    } else {
        let prev = leveled_upto(before, content, recipients, xp, n - 1);
        let id = recipients[n - 1];
        let share = xp_share(xp, recipients.len(), content.settings.combat.xp_distribution.mode, n - 1);
        let c = credited(before, content, id, share);
        if share > 0 && c.0 > before.spec_actor_level(id) { prev.push((id, c.0 as u32)) } else { prev }
    }
}

/// The value of stat `k` of actor `a` once the first `n` recipients have
/// taken their shares: each recipient with a share grows through every level
/// its share lets it climb.
pub open spec fn stats_after_awards(before: &WorldState, content: &ContentPack, recipients: Seq<Seq<char>>, xp: nat, n: int,
    a: Seq<char>, k: Seq<char>) -> int
    decreases n,
{
    if n <= 0 {
        before.spec_actor_stat(a, k)
    } else {
        let prev = stats_after_awards(before, content, recipients, xp, n - 1, a, k);
        let id = recipients[n - 1];
        let share = xp_share(xp, recipients.len(), content.settings.combat.xp_distribution.mode, n - 1);
        if share > 0 {
            grow_levels(before, id, content.spec_level_table(id), before.spec_actor_level(id) as int,
                credited(before, content, id, share).0, a, k, prev)
        } else {
            prev
        }
    }
}

/// The level-up announcements for a list of risen recipients: the player's
/// on its own, then the followers' grouped by level.
pub open spec fn level_announcements(after: &WorldState, content: &ContentPack, leveled: Seq<(String, u32)>)
    -> Seq<(NarrativeLineKind, Seq<char>)> {
    player_level_lines(after, content, leveled, leveled.len() as int)
        + groups_from(content, leveled_followers(after, content, leveled, leveled.len() as int), None)
}

/// What awarding a defeated actor's experience does: nothing when the actor
/// is unknown, gives none or the player has no level table; otherwise each
/// recipient with a share is credited its share (climbing its level table),
/// everyone else keeps experience and level, only stats, experience and
/// levels change, and the risen recipients are announced (see
/// `level_announcements`).
pub open spec fn xp_award_outcome(before: &WorldState, after: &WorldState, content: &ContentPack, defeated_actor_id: Seq<char>,
    lb: Seq<(NarrativeLineKind, Seq<char>)>, la: Seq<(NarrativeLineKind, Seq<char>)>) -> bool {
    let player = content.settings.combat.player_actor_id@;
    let recipients = spec_xp_recipients(before, content);
    let skipped = !content.has_actor(defeated_actor_id) || content.spec_actor(defeated_actor_id).xp_drop == 0
        || content.spec_level_table(player).len() == 0;
    let xp = content.spec_actor(defeated_actor_id).xp_drop as nat;
    &&& skipped ==> *after == *before && la == lb
    &&& !skipped ==> {
        &&& forall|i: int| 0 <= i < recipients.len() && xp_share(xp, recipients.len(), content.settings.combat.xp_distribution.mode, i) > 0 ==> {
            let c = credited(before, content, #[trigger] recipients[i], xp_share(xp, recipients.len(), content.settings.combat.xp_distribution.mode, i));
            &&& after.actor_xp@.dom().contains(recipients[i])
            &&& after.actor_xp@[recipients[i]] == c.1
            &&& after.actor_level@.dom().contains(recipients[i])
            &&& after.actor_level@[recipients[i]] == c.0
        }
        &&& forall|k: Seq<char>| !(exists|i: int| 0 <= i < recipients.len() && recipients[i] == k
                && xp_share(xp, recipients.len(), content.settings.combat.xp_distribution.mode, i) > 0)
            ==> #[trigger] xp_untouched(before, after, k)
        &&& *after == (WorldState { actor_stats: after.actor_stats, actor_xp: after.actor_xp,
            actor_level: after.actor_level, ..*before })
        &&& forall|a: Seq<char>, k: Seq<char>| #[trigger] after.spec_actor_stat(a, k)
            == stats_after_awards(before, content, recipients, xp, recipients.len() as int, a, k)
        &&& exists|leveled: Seq<(String, u32)>| leveled.map_values(|e: (String, u32)| (e.0@, e.1))
                == leveled_upto(before, content, recipients, xp, recipients.len() as int)
            && la == lb + #[trigger] level_announcements(after, content, leveled)
    }
    &&& la.len() >= lb.len()
    &&& la.take(lb.len() as int) == lb
}

/// Awards a defeated actor's experience to the player (and, when the pack
/// says so, to every follower), each recipient climbing its own level table,
/// and announces who levelled up.
pub fn award_defeat_xp(state: &mut WorldState, content: &ContentPack, defeated_actor_id: &str, lines: &mut NarrativeLines)
    requires
        old(state).wf(),
        content.wf(),
        level_tables_bounded(content),
        old(state).relationships.key_seq().len() < u32::MAX,
    ensures
        final(state).wf(),
        xp_award_outcome(old(state), final(state), content, defeated_actor_id@, old(lines).views(), final(lines).views()),
{
    let ghost start_lines = lines.views();
    let xp = match content.actor(defeated_actor_id) {
        Some(actor) => actor.xp_drop,
        None => {
            assert(start_lines.take(start_lines.len() as int) =~= start_lines);
            return;
        },
    };
    let player_actor_id = content.settings.combat.player_actor_id.as_str();
    if xp == 0 || content.level_table(player_actor_id).len() == 0 {
        assert(start_lines.take(start_lines.len() as int) =~= start_lines);
        return;
    }
    let targets = xp_recipients(state, content);
    let ghost recipients = targets@.map_values(|s: String| s@);
    proof {
        lemma_recipients_distinct(state, content);
        state.relationships.lemma_contents();
    }
    assert(targets.len() <= u32::MAX) by {
        assert(recipients.len() == targets.len());
        assert(followers_upto(state, player_actor_id@, state.relationships.key_seq(), state.relationships.key_seq().len() as int).len()
            <= state.relationships.key_seq().len()) by {
            lemma_followers_len(state, player_actor_id@, state.relationships.key_seq(), state.relationships.key_seq().len() as int);
        }
    }
    let mode = content.settings.combat.xp_distribution.mode;
    let awards = distribute_xp(xp, targets.len(), mode);
    let ghost n = targets.len();
    let mut leveled: Vec<(String, u32)> = Vec::new();
    let mut i: usize = 0;
    while i < targets.len()
        invariant
            state.wf(),
            content.wf(),
            level_tables_bounded(content),
            n == targets.len(),
            awards.len() == n,
            i <= n,
            recipients == targets@.map_values(|s: String| s@),
            recipients == spec_xp_recipients(old(state), content),
            all_distinct(recipients),
            forall|q: int| 0 <= q < n ==> #[trigger] awards@[q] as nat == xp_share(xp as nat, n as nat, mode, q),
            *state == (WorldState { actor_stats: state.actor_stats, actor_xp: state.actor_xp, actor_level: state.actor_level, ..*old(state) }),
            forall|q: int| 0 <= q < i && awards@[q] > 0 ==> {
                let c = credited(old(state), content, #[trigger] recipients[q], awards@[q] as nat);
                &&& state.actor_xp@.dom().contains(recipients[q])
                &&& state.actor_xp@[recipients[q]] == c.1
                &&& state.actor_level@.dom().contains(recipients[q])
                &&& state.actor_level@[recipients[q]] == c.0
            },
            forall|k: Seq<char>| !credited_among(recipients, awards@, i as int, k) ==> #[trigger] xp_untouched(old(state), state, k),
            leveled@.map_values(|e: (String, u32)| (e.0@, e.1)) == leveled_upto(old(state), content, recipients, xp as nat, i as int),
            mode == content.settings.combat.xp_distribution.mode,
            recipients.len() == n,
            forall|a: Seq<char>, k: Seq<char>| #[trigger] state.spec_actor_stat(a, k)
                == stats_after_awards(old(state), content, recipients, xp as nat, i as int, a, k),
        decreases n - i,
    {
        let award = awards[i];
        assert(awards@[i as int] as nat == xp_share(xp as nat, n as nat, mode, i as int));
        if award == 0 {
            assert(leveled_upto(old(state), content, recipients, xp as nat, i + 1) == leveled_upto(old(state), content, recipients, xp as nat, i as int));
            proof {
                assert forall|k: Seq<char>| !credited_among(recipients, awards@, i + 1, k) implies #[trigger] xp_untouched(old(state), state, k) by {
                    if credited_among(recipients, awards@, i as int, k) {
                        let q = choose|q: int| 0 <= q < i && recipients[q] == k && awards@[q] > 0;
                        assert(0 <= q < i + 1 && recipients[q] == k && awards@[q] > 0);
                    }
                }
            }
            i = i + 1;
            continue;
        }
        let ghost id = recipients[i as int];
        assert(targets@[i as int]@ == id);
        proof {
            assert forall|q: int| 0 <= q < i implies #[trigger] recipients[q] != id by {}
            if credited_among(recipients, awards@, i as int, id) {
                let q = choose|q: int| 0 <= q < i && recipients[q] == id && awards@[q] > 0;
                assert(recipients[q] != id);
            }
            assert(xp_untouched(old(state), state, id));
            assert(state.spec_actor_xp(id) == old(state).spec_actor_xp(id));
            assert(state.spec_actor_level(id) == old(state).spec_actor_level(id));
        }
        let ghost before = *state;
        let ghost lv0 = leveled@;
        let gained = credit_experience(state, content, targets[i].as_str(), award);
        if gained {
            let entry = (targets[i].clone(), state.actor_level(targets[i].as_str()));
            leveled.push(entry);
            proof { lemma_map_values_push(lv0, entry, |e: (String, u32)| (e.0@, e.1)); }
        }
        proof {
            assert forall|a: Seq<char>, k: Seq<char>| #[trigger] state.spec_actor_stat(a, k)
                == stats_after_awards(old(state), content, recipients, xp as nat, i + 1, a, k) by {
                assert(before.spec_actor_stat(a, k) == stats_after_awards(old(state), content, recipients, xp as nat, i as int, a, k));
                lemma_grow_levels_same(&before, old(state), id, content.spec_level_table(id), before.spec_actor_level(id) as int,
                    credited(old(state), content, id, award as nat).0, a, k, before.spec_actor_stat(a, k));
            }
            let c = credited(old(state), content, id, award as nat);
            assert(c == settle_level(content.spec_level_table(id), before.spec_actor_level(id) as int,
                saturating_add_u32(before.spec_actor_xp(id) as int, award as int)));
            assert(leveled@.map_values(|e: (String, u32)| (e.0@, e.1)) =~= leveled_upto(old(state), content, recipients, xp as nat, i + 1));
        }
        proof {
            assert forall|q: int| 0 <= q < i + 1 && awards@[q] > 0 implies {
                let c = credited(old(state), content, #[trigger] recipients[q], awards@[q] as nat);
                &&& state.actor_xp@.dom().contains(recipients[q])
                &&& state.actor_xp@[recipients[q]] == c.1
                &&& state.actor_level@.dom().contains(recipients[q])
                &&& state.actor_level@[recipients[q]] == c.0
            } by {
                if q < i {
                    assert(recipients[q] != id);
                }
            }
            assert forall|k: Seq<char>| !credited_among(recipients, awards@, i + 1, k) implies #[trigger] xp_untouched(old(state), state, k) by {
                assert(0 <= i < i + 1 && recipients[i as int] == id && awards@[i as int] > 0);
                assert(k != id);
                if credited_among(recipients, awards@, i as int, k) {
                    let q = choose|q: int| 0 <= q < i && recipients[q] == k && awards@[q] > 0;
                    assert(0 <= q < i + 1 && recipients[q] == k && awards@[q] > 0);
                }
                assert(xp_untouched(old(state), &before, k));
            }
        }
        i = i + 1;
    }
    let ghost awarded = *state;
    announce_level_ups(state, content, &leveled, lines);
    assert(lines.views() == start_lines + level_announcements(&awarded, content, leveled@));
    assert(lines.views().take(start_lines.len() as int) =~= start_lines);
}

proof fn lemma_followers_len(state: &WorldState, player: Seq<char>, keys: Seq<Seq<char>>, n: int)
    requires
        0 <= n <= keys.len(),
    ensures
        followers_upto(state, player, keys, n).len() <= n,
    decreases n,
{
    if n > 0 {
        lemma_followers_len(state, player, keys, n - 1);
    }
}



fn number_text(n: u32) -> (r: String)
    ensures
        r@ == crate::text::nat_text(n as nat),
{
    string_from_chars(&crate::text::u64_chars(n as u64))
}

/// The pack message that announces a group of followers reaching the same
/// level: the large group message for four or more, the group message for
/// two or more, when the pack has it.
pub open spec fn party_key(content: &ContentPack, count: nat) -> Option<Seq<char>> {
    if count >= 4 && content.messages@.dom().contains("combat.party_level_up_large"@) {
        Some("combat.party_level_up_large"@)
    } else if count > 1 && content.messages@.dom().contains("combat.party_level_up_group"@) {
        Some("combat.party_level_up_group"@)
    } else {
        None
    }
}

fn party_level_up_key(content: &ContentPack, count: usize) -> (r: Option<&'static str>)
    requires
        content.wf(),
    ensures
        match r {
            Some(k) => party_key(content, count as nat) == Some(k@),
            None => party_key(content, count as nat) is None,
        },
{
    if count >= 4 && content.messages.contains_str("combat.party_level_up_large") {
        Some("combat.party_level_up_large")
    } else if count > 1 && content.messages.contains_str("combat.party_level_up_group") {
        Some("combat.party_level_up_group")
    } else {
        None
    }
}

/// The lines announcing that one actor reached a level.
pub open spec fn level_up_lines(content: &ContentPack, name: Seq<char>, level: u32) -> Seq<(NarrativeLineKind, Seq<char>)> {
    message_seq(content, "combat.level_up"@, seq![("actor_name"@, name), ("level"@, crate::text::nat_text(level as nat))])
}

fn push_level_up(lines: &mut NarrativeLines, content: &ContentPack, name: &str, level: u32)
    requires
        content.wf(),
    ensures
        final(lines).views() == old(lines).views() + level_up_lines(content, name@, level),
{
    let level_text = number_text(level);
    let replacements: [(&str, &str); 2] = [("actor_name", name), ("level", level_text.as_str())];
    proof {
        assert(crate::text::pair_views(replacements@) =~= seq![("actor_name"@, name@), ("level"@, crate::text::nat_text(level as nat))]);
    }
    super::feedback::push_message(lines, content, "combat.level_up", &replacements);
}

/// The player's level-up lines among the first `n` level-ups, in order.
pub open spec fn player_level_lines(state: &WorldState, content: &ContentPack, leveled: Seq<(String, u32)>, n: int)
    -> Seq<(NarrativeLineKind, Seq<char>)>
    decreases n,
{
    if n <= 0 {
        Seq::empty()
    } else {
        let prev = player_level_lines(state, content, leveled, n - 1);
        let e = leveled[n - 1];
        if e.0@ == content.settings.combat.player_actor_id@ {
            prev + level_up_lines(content, name_for(content, state, e.0@), e.1)
        } else {
            prev
        }
    }
}

/// The followers among the first `n` level-ups, as (name, level), in order.
pub open spec fn leveled_followers(state: &WorldState, content: &ContentPack, leveled: Seq<(String, u32)>, n: int)
    -> Seq<(Seq<char>, u32)>
    decreases n,
{
    if n <= 0 {
        Seq::empty()
    } else {
        let prev = leveled_followers(state, content, leveled, n - 1);
        let e = leveled[n - 1];
        if e.0@ == content.settings.combat.player_actor_id@ {
            prev
        } else {
            prev.push((name_for(content, state, e.0@), e.1))
        }
    }
}

/// Whether a level lies above the last one announced (any level does when
/// none has been).
pub open spec fn above_last(level: u32, last: Option<u32>) -> bool {
    match last {
        Some(x) => level > x,
        None => true,
    }
}

/// The lowest level among the first `n` followers that lies above `last`.
pub open spec fn lowest_level_above(followers: Seq<(Seq<char>, u32)>, last: Option<u32>, n: int) -> Option<u32>
    decreases n,
{
    if n <= 0 {
        None
    } else {
        let prev = lowest_level_above(followers, last, n - 1);
        let l = followers[n - 1].1;
        if above_last(l, last) {
            match prev {
                Some(p) => if l < p { Some(l) } else { Some(p) },
                None => Some(l),
            }
        } else {
            prev
        }
    }
}

pub proof fn lemma_lowest_above(followers: Seq<(Seq<char>, u32)>, last: Option<u32>, n: int)
    ensures
        lowest_level_above(followers, last, n) matches Some(l) ==> above_last(l, last),
    decreases n,
{
    if n > 0 {
        lemma_lowest_above(followers, last, n - 1);
    }
}

/// The names of the first `n` followers that reached `level`, in order.
pub open spec fn names_at_level(followers: Seq<(Seq<char>, u32)>, level: u32, n: int) -> Seq<Seq<char>>
    decreases n,
{
    if n <= 0 {
        Seq::empty()
    } else {
        let prev = names_at_level(followers, level, n - 1);
        if followers[n - 1].1 == level { prev.push(followers[n - 1].0) } else { prev }
    }
}

/// One level-up line for each of the first `n` names.
pub open spec fn names_lines(content: &ContentPack, names: Seq<Seq<char>>, level: u32, n: int) -> Seq<(NarrativeLineKind, Seq<char>)>
    decreases n,
{
    if n <= 0 {
        Seq::empty()
    } else {
        names_lines(content, names, level, n - 1) + level_up_lines(content, names[n - 1], level)
    }
}

/// The announcement of the followers that reached one level: one group
/// message when the pack has one for their number, otherwise a line each.
pub open spec fn group_lines(content: &ContentPack, followers: Seq<(Seq<char>, u32)>, level: u32) -> Seq<(NarrativeLineKind, Seq<char>)> {
    let names = names_at_level(followers, level, followers.len() as int);
    match party_key(content, names.len()) {
        Some(key) => message_seq(content, key, seq![("actors"@, summary_or_empty(names)),
            ("count"@, crate::text::nat_text(names.len())), ("level"@, crate::text::nat_text(level as nat))]),
        None => names_lines(content, names, level, names.len() as int),
    }
}

pub open spec fn level_measure(last: Option<u32>) -> int {
    match last {
        Some(l) => u32::MAX - l,
        None => u32::MAX + 1,
    }
}

/// The announcements of the followers' levels above `last`, lowest first.
pub open spec fn groups_from(content: &ContentPack, followers: Seq<(Seq<char>, u32)>, last: Option<u32>)
    -> Seq<(NarrativeLineKind, Seq<char>)>
    decreases level_measure(last),
{
    match lowest_level_above(followers, last, followers.len() as int) {
        Some(l) => {
            proof {
                lemma_lowest_above(followers, last, followers.len() as int);
            }
            group_lines(content, followers, l) + groups_from(content, followers, Some(l))
        },
        None => Seq::empty(),
    }
}

pub open spec fn follower_views(v: Seq<(String, u32)>) -> Seq<(Seq<char>, u32)> {
    v.map_values(|p: (String, u32)| (p.0@, p.1))
}

/// Announces level-ups: the player's on its own, the followers' grouped by
/// the level they reached, lowest first, in one message per group when the
/// pack has one for its size.
fn announce_level_ups(state: &WorldState, content: &ContentPack, leveled: &Vec<(String, u32)>, lines: &mut NarrativeLines)
    requires
        state.wf(),
        content.wf(),
    ensures
        final(lines).views() == old(lines).views() + player_level_lines(state, content, leveled@, leveled@.len() as int)
            + groups_from(content, leveled_followers(state, content, leveled@, leveled@.len() as int), None),
{
    let ghost start = lines.views();
    let player = content.settings.combat.player_actor_id.as_str();
    let mut followers: Vec<(String, u32)> = Vec::new();
    let mut i: usize = 0;
    while i < leveled.len()
        invariant
            state.wf(),
            content.wf(),
            player@ == content.settings.combat.player_actor_id@,
            i <= leveled.len(),
            lines.views() == start + player_level_lines(state, content, leveled@, i as int),
            follower_views(followers@) == leveled_followers(state, content, leveled@, i as int),
        decreases leveled.len() - i,
    {
        let (actor_id, level) = &leveled[i];
        let name = match content.actor(actor_id.as_str()) {
            Some(actor) => crate::state::appointments::display_actor_name(state, actor),
            None => string_of(actor_id.as_str()),
        };
        assert(name@ == name_for(content, state, actor_id@));
        if crate::text::str_eq(actor_id.as_str(), player) {
            push_level_up(lines, content, name.as_str(), *level);
            assert(lines.views() =~= start + player_level_lines(state, content, leveled@, i as int + 1));
        } else {
            let ghost before = followers@;
            let entry = (name, *level);
            followers.push(entry);
            assert(follower_views(followers@) =~= follower_views(before).push((entry.0@, entry.1)));
        }
        i = i + 1;
    }
    let ghost fv = follower_views(followers@);
    let ghost base = lines.views();
    assert(base == start + player_level_lines(state, content, leveled@, leveled@.len() as int));
    assert(fv == leveled_followers(state, content, leveled@, leveled@.len() as int));
    let mut last: Option<u32> = None;
    loop
        invariant
            content.wf(),
            fv == follower_views(followers@),
            lines.views() + groups_from(content, fv, last) == base + groups_from(content, fv, None),
        ensures
            lines.views() == base + groups_from(content, fv, None),
        decreases level_measure(last),
    {
        let mut next: Option<u32> = None;
        let mut j: usize = 0;
        while j < followers.len()
            invariant
                j <= followers.len(),
                fv == follower_views(followers@),
                next == lowest_level_above(fv, last, j as int),
            decreases followers.len() - j,
        {
            let level = followers[j].1;
            assert(fv[j as int].1 == level);
            let above = match last {
                Some(l) => level > l,
                None => true,
            };
            if above {
                next = match next {
                    Some(n) => if level < n { Some(level) } else { Some(n) },
                    None => Some(level),
                };
            }
            j = j + 1;
        }
        proof { lemma_lowest_above(fv, last, fv.len() as int); }
        let level = match next {
            Some(l) => l,
            None => {
                assert(lines.views() =~= base + groups_from(content, fv, None));
                break;
            },
        };
        let mut names: Vec<String> = Vec::new();
        let mut k: usize = 0;
        while k < followers.len()
            invariant
                k <= followers.len(),
                fv == follower_views(followers@),
                names@.map_values(|s: String| s@) == names_at_level(fv, level, k as int),
            decreases followers.len() - k,
        {
            if followers[k].1 == level {
                let ghost before = names@;
                let nm = string_of(followers[k].0.as_str());
                names.push(nm);
                assert(names@.map_values(|s: String| s@) =~= before.map_values(|s: String| s@).push(nm@));
            }
            k = k + 1;
        }
        let ghost nv = names@.map_values(|s: String| s@);
        let ghost before_group = lines.views();
        let count = names.len();
        match party_level_up_key(content, count) {
            Some(key) => {
                let actors = summarize_actor_names_or_empty(&names);
                let count_text = number_text_usize(count);
                let level_text = number_text(level);
                let replacements: [(&str, &str); 3] = [("actors", actors.as_str()), ("count", count_text.as_str()), ("level", level_text.as_str())];
                proof {
                    assert(crate::text::pair_views(replacements@) =~= seq![("actors"@, summary_or_empty(nv)),
                        ("count"@, crate::text::nat_text(nv.len())), ("level"@, crate::text::nat_text(level as nat))]);
                }
                super::feedback::push_message(lines, content, key, &replacements);
            },
            None => {
                let mut q: usize = 0;
                while q < names.len()
                    invariant
                        content.wf(),
                        q <= names.len(),
                        nv == names@.map_values(|s: String| s@),
                        lines.views() == before_group + names_lines(content, nv, level, q as int),
                    decreases names.len() - q,
                {
                    push_level_up(lines, content, names[q].as_str(), level);
                    assert(lines.views() =~= before_group + names_lines(content, nv, level, q as int + 1));
                    q = q + 1;
                }
            },
        }
        proof {
            assert(lines.views() == before_group + group_lines(content, fv, level));
            assert(groups_from(content, fv, last) == group_lines(content, fv, level) + groups_from(content, fv, Some(level)));
            assert(lines.views() + groups_from(content, fv, Some(level)) =~= before_group + groups_from(content, fv, last));
        }
        last = Some(level);
    }
}

fn summarize_actor_names_or_empty(names: &Vec<String>) -> (r: String)
    ensures
        r@ == summary_or_empty(names@.map_values(|s: String| s@)),
{
    let ghost views = names@.map_values(|s: String| s@);
    let summary = super::summaries::summarize_actor_names(names.as_slice());
    proof {
        let w = choose|keys: Seq<Seq<char>>| strictly_sorted(keys) && keys.to_set() == views.to_set()
            && ({
                let s = spec_summary(views, keys);
                &&& summary is Some == s is Some
                &&& summary matches Some(t) ==> t@ == s->0
            });
        let c = choose|keys: Seq<Seq<char>>| strictly_sorted(keys) && keys.to_set() == views.to_set();
        super::summaries::lemma_sorted_unique(w, c);
    }
    match summary {
        Some(s) => s,
        None => {
            let e = String::new();
            assert(e@ =~= Seq::<char>::empty());
            e
        },
    }
}

fn number_text_usize(n: usize) -> (r: String)
    ensures
        r@ == crate::text::nat_text(n as nat),
{
    string_from_chars(&crate::text::u64_chars(n as u64))
}


/// Whether an ally lends its strength to the player's attack in a room: it
/// is not the player, is allied (and follows, when the pack asks only
/// followers), has not fallen, and stands in the room.
pub open spec fn joins_attack(state: &WorldState, content: &ContentPack, room_id: Seq<char>, id: Seq<char>) -> bool {
    let rel = state.relationships@[id];
    let policy = content.settings.combat.ally_attack;
    &&& id != content.settings.combat.player_actor_id@
    &&& rel.stance == ActorStance::Allied
    &&& (policy.participants != AllyAttackParticipants::FollowersOnly || rel.follows_player)
    &&& !state.spec_actor_is_defeated(id, content.settings.combat.health_stat_id@)
    &&& state.spec_actor_is_in_room(content, id, room_id)
}

/// The allies among the first `n` relationship keys that join the attack.
pub open spec fn allies_upto(state: &WorldState, content: &ContentPack, room_id: Seq<char>, keys: Seq<Seq<char>>, n: int) -> Seq<Seq<char>>
    decreases n,
{
    if n <= 0 {
        Seq::empty()
    } else {
        let prev = allies_upto(state, content, room_id, keys, n - 1);
        if joins_attack(state, content, room_id, keys[n - 1]) { prev.push(keys[n - 1]) } else { prev }
    }
}

/// The allies that join the player's attack in a room, in id order; none
/// when the pack disables ally attacks.
pub open spec fn spec_participating_allies(state: &WorldState, content: &ContentPack, room_id: Seq<char>) -> Seq<Seq<char>> {
    if content.settings.combat.ally_attack.participants == AllyAttackParticipants::Disabled {
        Seq::empty()
    } else {
        let keys = state.relationships.key_seq();
        allies_upto(state, content, room_id, keys, keys.len() as int)
    }
}

pub fn participating_allies(state: &WorldState, content: &ContentPack, room_id: &str) -> (r: Vec<String>)
    requires
        state.wf(),
    ensures
        r@.map_values(|s: String| s@) == spec_participating_allies(state, content, room_id@),
{
    let mut out: Vec<String> = Vec::new();
    if content.settings.combat.ally_attack.participants == AllyAttackParticipants::Disabled {
        assert(out@.map_values(|s: String| s@) =~= Seq::<Seq<char>>::empty());
        return out;
    }
    let ghost keys = state.relationships.key_seq();
    let n = state.relationships.len();
    proof { state.relationships.lemma_contents(); }
    let mut i: usize = 0;
    while i < n
        invariant
            state.wf(),
            keys == state.relationships.key_seq(),
            n == keys.len(),
            i <= n,
            content.settings.combat.ally_attack.participants != AllyAttackParticipants::Disabled,
            forall|a: int| 0 <= a < keys.len() ==> state.relationships@[keys[a]] == #[trigger] state.relationships.val_seq()[a],
            out@.map_values(|s: String| s@) == allies_upto(state, content, room_id@, keys, i as int),
        decreases n - i,
    {
        let id = string_from_chars(state.relationships.key_at(i));
        let rel = *state.relationships.value_at(i);
        let policy = &content.settings.combat.ally_attack;
        let joins = !content.is_player_actor(id.as_str())
            && rel.stance == ActorStance::Allied
            && (policy.participants != AllyAttackParticipants::FollowersOnly || rel.follows_player)
            && !state.actor_is_defeated(id.as_str(), content.settings.combat.health_stat_id.as_str())
            && state.actor_is_in_room(content, id.as_str(), room_id);
        if joins {
            let ghost before = out@;
            out.push(id);
            proof { lemma_map_values_push(before, id, |s: String| s@); }
        }
        i = i + 1;
    }
    out
}

/// An ally's share of the player's attack: its attack stat (never below
/// zero) scaled by the pack's percentage, capped at the largest `i32` and at
/// the pack's per-ally maximum.
pub open spec fn spec_ally_contribution(state: &WorldState, content: &ContentPack, actor_id: Seq<char>) -> int {
    let policy = content.settings.combat.ally_attack;
    let stat = state.spec_actor_stat(actor_id, content.settings.combat.attack_stat_id@);
    let raw = if stat > 0 { stat } else { 0 };
    let scaled0 = raw * policy.contribution_percent / 100;
    let scaled = if scaled0 > i32::MAX { i32::MAX as int } else { scaled0 };
    match policy.maximum_per_ally {
        Some(m) => if scaled < m { scaled } else { m as int },
        None => scaled,
    }
}

pub fn ally_attack_contribution(state: &WorldState, content: &ContentPack, actor_id: &str) -> (r: i32)
    requires
        state.wf(),
    ensures
        r as int == spec_ally_contribution(state, content, actor_id@),
{
    let policy = &content.settings.combat.ally_attack;
    let raw = match policy.mode {
        AllyAttackMode::AttackStat => {
            let v = state.actor_stat(actor_id, content.settings.combat.attack_stat_id.as_str());
            if v > 0 { v } else { 0 }
        },
    };
    assert(0 <= raw as int * policy.contribution_percent as int <= i32::MAX as int * u32::MAX as int) by (nonlinear_arith)
        requires 0 <= raw <= i32::MAX, 0 <= policy.contribution_percent <= u32::MAX;
    let product = (raw as i64) * (policy.contribution_percent as i64);
    let scaled0 = product / 100;
    let scaled: i32 = if scaled0 > i32::MAX as i64 { i32::MAX } else { scaled0 as i32 };
    match policy.maximum_per_ally {
        Some(maximum) => if scaled < maximum { scaled } else { maximum },
        None => scaled,
    }
}

/// Ends the game when the player has no health left, narrating the pack's
/// defeat text; does nothing once the game is no longer active.
pub fn defeat_player_if_dead(state: &mut WorldState, content: &ContentPack, lines: &mut NarrativeLines)
    requires
        old(state).wf(),
        content.wf(),
        forall|n: int| 0 <= n <= old(state).equipped_ids().len() ==> i32::MIN
            <= #[trigger] crate::state::stats::bonus_sum(content, old(state).equipped_ids(), content.settings.combat.health_stat_id@, n) <= i32::MAX,
        i32::MIN <= old(state).spec_effective_actor_stat(content, content.settings.combat.player_actor_id@, content.settings.combat.health_stat_id@) <= i32::MAX,
    ensures
        final(state).wf(),
        ({
            let dies = old(state).phase == GamePhase::Active && old(state).spec_effective_actor_stat(content,
                content.settings.combat.player_actor_id@, content.settings.combat.health_stat_id@) <= 0;
            &&& *final(state) == if dies { WorldState { phase: GamePhase::GameEnded, ..*old(state) } } else { *old(state) }
            &&& final(lines).views() == old(lines).views() + if dies {
                seq![(crate::narrative::NarrativeLineKind::Narration, story_text(content.settings.combat.player_defeat_text@, old(state)))]
            } else {
                Seq::empty()
            }
        }),
{
    if state.phase != GamePhase::Active {
        assert(lines.views() =~= old(lines).views() + Seq::empty());
        return;
    }
    let combat = &content.settings.combat;
    if state.effective_actor_stat(content, combat.player_actor_id.as_str(), combat.health_stat_id.as_str()) > 0 {
        assert(lines.views() =~= old(lines).views() + Seq::empty());
        return;
    }
    let text = render_story_text(combat.player_defeat_text.as_str(), state);
    lines.narration(text);
    state.phase = GamePhase::GameEnded;
    assert(lines.views() =~= old(lines).views() + seq![(crate::narrative::NarrativeLineKind::Narration, text@)]);
}


/// The sum of the first `n` shares of an experience award.
pub open spec fn shares_total(xp: nat, count: nat, mode: XpDistributionMode, n: int) -> int
    decreases n,
{
    if n <= 0 { 0 } else { shares_total(xp, count, mode, n - 1) + xp_share(xp, count, mode, n - 1) }
}

proof fn lemma_split_partial(xp: nat, count: nat, n: int)
    requires
        count > 0,
        0 <= n <= count,
    ensures
        shares_total(xp, count, XpDistributionMode::SplitEvenly, n)
            == n * (xp / count) + if n < (xp % count) as int { n } else { (xp % count) as int },
    decreases n,
{
    if n > 0 {
        lemma_split_partial(xp, count, n - 1);
        assert(n * (xp / count) == (n - 1) * (xp / count) + xp / count) by (nonlinear_arith);
    } else {
        assert(n * (xp / count) == 0) by (nonlinear_arith) requires n == 0;
    }
}

/// Splitting an award evenly hands out exactly the whole award.
pub proof fn law_split_shares_sum_to_award(xp: nat, count: nat)
    requires
        count > 0,
    ensures
        shares_total(xp, count, XpDistributionMode::SplitEvenly, count as int) == xp,
{
    lemma_split_partial(xp, count, count as int);
    assert(xp % count < count) by (nonlinear_arith) requires count > 0;
    assert(count * (xp / count) + xp % count == xp) by (nonlinear_arith) requires count > 0;
}

/// Giving every recipient the full award hands out the award once per
/// recipient.
pub proof fn law_full_shares_give_each_the_award(xp: nat, count: nat)
    ensures
        shares_total(xp, count, XpDistributionMode::FullEach, count as int) == count * xp,
{
    lemma_full_partial(xp, count, count as int);
}

proof fn lemma_full_partial(xp: nat, count: nat, n: int)
    requires
        0 <= n,
    ensures
        shares_total(xp, count, XpDistributionMode::FullEach, n) == n * xp,
    decreases n,
{
    if n > 0 {
        lemma_full_partial(xp, count, n - 1);
        assert(n * xp == (n - 1) * xp + xp) by (nonlinear_arith);
    } else {
        assert(n * xp == 0) by (nonlinear_arith) requires n == 0;
    }
}

/// Climbing a level table never lowers the level, never adds experience,
/// and stops at a level whose step the leftover experience cannot pay.
pub proof fn law_levels_only_climb(table: Seq<LevelDefinition>, level: int, accrued: int)
    requires
        level >= 1,
        accrued >= 0,
    ensures
        settle_level(table, level, accrued).0 >= level,
        0 <= settle_level(table, level, accrued).1 <= accrued,
        ({
            let (l, a) = settle_level(table, level, accrued);
            !(1 <= l <= table.len() && a >= table[l - 1].exp_required)
        }),
    decreases table.len() + 1 - level,
{
    if 1 <= level <= table.len() && accrued >= table[level - 1].exp_required {
        law_levels_only_climb(table, level + 1, accrued - table[level - 1].exp_required);
    }
}

/// The experience that climbing from level `from` to level `to` costs: the
/// step of each level passed.
pub open spec fn levels_cost(table: Seq<LevelDefinition>, from: int, to: int) -> int
    decreases to - from,
{
    if to <= from { 0 } else { table[from - 1].exp_required + levels_cost(table, from + 1, to) }
}

proof fn lemma_settle_pays_for_levels(table: Seq<LevelDefinition>, level: int, accrued: int)
    requires
        level >= 1,
    ensures
        settle_level(table, level, accrued).1 + levels_cost(table, level, settle_level(table, level, accrued).0) == accrued,
        settle_level(table, level, accrued).0 >= level,
    decreases table.len() + 1 - level,
{
    if 1 <= level <= table.len() && accrued >= table[level - 1].exp_required {
        lemma_settle_pays_for_levels(table, level + 1, accrued - table[level - 1].exp_required);
    }
}

/// Experience accumulates: a recipient credited an award ends with the
/// experience it already had plus the award (held at the largest `u32`),
/// less the cost of the levels it climbed; when it climbs no level it keeps
/// all of it. It climbs from its current level and stops at the first level
/// it cannot pay for.
pub proof fn law_credit_accumulates(before: &WorldState, content: &ContentPack, id: Seq<char>, award: nat)
    requires
        award <= u32::MAX,
    ensures
        ({
            let table = content.spec_level_table(id);
            let had = before.spec_actor_xp(id) as int;
            let total = if had + award > u32::MAX { u32::MAX as int } else { had + award };
            let start = before.spec_actor_level(id) as int;
            let (level, xp) = credited(before, content, id, award);
            &&& xp + levels_cost(table, start, level) == total
            &&& level >= start
            &&& level == start ==> xp == total
            &&& !(1 <= level <= table.len() && xp >= table[level - 1].exp_required)
        }),
{
    let table = content.spec_level_table(id);
    let start = before.spec_actor_level(id) as int;
    let had = before.spec_actor_xp(id) as int;
    let total = if had + award > u32::MAX { u32::MAX as int } else { had + award };
    assert(saturating_add_u32(had, award as int) == total);
    lemma_settle_pays_for_levels(table, start, total);
    law_levels_only_climb(table, start, total);
}

/// An ally's share of an attack is at most its percentage of its attack
/// (counted from zero), never above the pack's per-ally cap when one is set,
/// and exactly that percentage, rounded down, when it fits under the cap
/// (if any) and in an `i32`.
pub proof fn law_ally_share_is_capped(state: &WorldState, content: &ContentPack, actor_id: Seq<char>)
    ensures
        ({
            let policy = content.settings.combat.ally_attack;
            let attack = state.spec_actor_stat(actor_id, content.settings.combat.attack_stat_id@);
            let base = if attack > 0 { attack } else { 0 };
            let share = base * policy.contribution_percent / 100;
            let got = spec_ally_contribution(state, content, actor_id);
            &&& got <= share
            &&& got <= i32::MAX
            &&& policy.maximum_per_ally matches Some(m) ==> got <= m
            &&& share <= i32::MAX && (policy.maximum_per_ally matches Some(m) ==> share <= m) ==> got == share
        }),
{
    let policy = content.settings.combat.ally_attack;
    let attack = state.spec_actor_stat(actor_id, content.settings.combat.attack_stat_id@);
    let base = if attack > 0 { attack } else { 0 };
    let pct = policy.contribution_percent as int;
    assert(base * pct >= 0) by (nonlinear_arith) requires base >= 0, pct >= 0;
}

/// Level growth touches only the climber's own stats, and only when it
/// climbs; climbing one level moves a declared, unbounded stat the level
/// names by exactly the level's change (when that stays within `i32`), and
/// leaves a stat the level does not name as it was.
pub proof fn law_growth_only_for_climbers(state: &WorldState, actor_id: Seq<char>, table: Seq<LevelDefinition>, from: int, to: int,
    a: Seq<char>, k: Seq<char>, v: int)
    ensures
        to <= from ==> grow_levels(state, actor_id, table, from, to, a, k, v) == v,
        state.spec_remap(a) != state.spec_remap(actor_id) ==> grow_levels(state, actor_id, table, from, to, a, k, v) == v,
        ({
            let ch = table[from - 1].stat_changes@;
            &&& to == from + 1 && !ch.dom().contains(k) ==> grow_levels(state, actor_id, table, from, to, a, k, v) == v
            &&& to == from + 1 && state.spec_remap(a) == state.spec_remap(actor_id) && ch.dom().contains(k)
                && state.actor_stat_defs@.dom().contains(k) && state.actor_stat_defs@[k].min is None
                && state.actor_stat_defs@[k].max is None && i32::MIN <= v + ch[k] <= i32::MAX
                ==> grow_levels(state, actor_id, table, from, to, a, k, v) == v + ch[k]
        }),
    decreases to - from,
{
    if to > from {
        law_growth_only_for_climbers(state, actor_id, table, from, to - 1, a, k, v);
    }
}

} // verus!

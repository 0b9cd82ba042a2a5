use vstd::prelude::*;
use crate::content::ContentPack;
use crate::narrative::{NarrativeLineKind, NarrativeLines};
use crate::reducer::beat_advance::{advance_objective_for_signal, advance_outcome, advance_settled, advance_trace, elapsed_upto, only_story_fields_changed, signal_headroom, AdvanceSnap};
use crate::reducer::combat::{actor_display_name, display_name};
use crate::reducer::feedback::{message_seq, push_message};
use crate::reducer::summaries::{spec_summary, strictly_sorted, summarize_actor_names};
use crate::state::{GamePhase, WorldState};
use crate::reducer::ReducerOutput;
use crate::reducer::observation::{observation_lines, ObservationMode};
use super::observation::handle_current_room_observed;
use crate::text::{append_chars, chars_of, lemma_map_values_push, lex_lt, nat_text, string_from_chars, u64_chars};

verus! {

/// Whether a follower is drawn into the player's new room: it follows the
/// player, is not the player, is onstage, is alive, and is elsewhere.
pub open spec fn follower_moves(state: &WorldState, content: &ContentPack, to_room: Seq<char>, id: Seq<char>) -> bool {
    &&& state.relationships@.dom().contains(id)
    &&& state.relationships@[id].follows_player
    &&& id != content.settings.combat.player_actor_id@
    &&& !(content.has_actor(id) && content.spec_actor(id).spec_is_offstage())
    &&& state.spec_actor_stat(id, content.settings.combat.health_stat_id@) > 0
    &&& state.spec_actor_current_room_id(content, id) != to_room
}

/// The followers among the first `n` of the given ids that are drawn along,
/// in order.
pub open spec fn moved_followers(state: &WorldState, content: &ContentPack, to_room: Seq<char>, ids: Seq<Seq<char>>, n: int) -> Seq<Seq<char>>
    decreases n,
{
    if n <= 0 {
        Seq::empty()
    } else {
        let prev = moved_followers(state, content, to_room, ids, n - 1);
        if follower_moves(state, content, to_room, ids[n - 1]) { prev.push(ids[n - 1]) } else { prev }
    }
}

/// The followers drawn along, in id order.
pub open spec fn followers_moving(state: &WorldState, content: &ContentPack, to_room: Seq<char>) -> Seq<Seq<char>> {
    let ids = state.relationships.key_seq();
    moved_followers(state, content, to_room, ids, ids.len() as int)
}

/// The pack message that reports a whole party moving at once: the large
/// party message for four or more, the party message for two or more, when
/// the pack has it.
pub open spec fn group_message_key(content: &ContentPack, count: nat) -> Option<Seq<char>> {
    if count >= 4 && content.messages@.dom().contains("follow.large_party_follows"@) {
        Some("follow.large_party_follows"@)
    } else if count > 1 && content.messages@.dom().contains("follow.party_follows"@) {
        Some("follow.party_follows"@)
    } else {
        None
    }
}

/// The lines reporting each of the first `n` names as following, one by one.
pub open spec fn follow_lines(content: &ContentPack, names: Seq<Seq<char>>, n: int) -> Seq<(NarrativeLineKind, Seq<char>)>
    decreases n,
{
    if n <= 0 {
        Seq::empty()
    } else {
        follow_lines(content, names, n - 1) + message_seq(content, "follow.actor_follows"@, seq![("actor"@, names[n - 1])])
    }
}

/// The lines reporting the moved followers: one group message when the
/// pack has one for their number, otherwise one line per follower.
pub open spec fn follower_report(content: &ContentPack, names: Seq<Seq<char>>, summary: Option<Seq<char>>) -> Seq<(NarrativeLineKind, Seq<char>)> {
    match (group_message_key(content, names.len()), summary) {
        (Some(key), Some(actors)) => message_seq(content, key, seq![("actors"@, actors), ("count"@, nat_text(names.len()))]),
        _ => follow_lines(content, names, names.len() as int),
    }
}

fn follower_group_message_key(content: &ContentPack, count: usize) -> (r: Option<&'static str>)
    requires
        content.wf(),
    ensures
        match r {
            Some(k) => group_message_key(content, count as nat) == Some(k@),
            None => group_message_key(content, count as nat) is None,
        },
{
    if count >= 4 && content.messages.contains_str("follow.large_party_follows") {
        Some("follow.large_party_follows")
    } else if count > 1 && content.messages.contains_str("follow.party_follows") {
        Some("follow.party_follows")
    } else {
        None
    }
}

/// Moves every living, onstage follower into the player's room and reports
/// who came along.
pub fn sync_followers_to_room(state: &mut WorldState, content: &ContentPack, to_room_id: &str, lines: &mut NarrativeLines)
    requires
        old(state).wf(),
        content.wf(),
    ensures
        final(state).wf(),
        ({
            let moved = followers_moving(old(state), content, to_room_id@);
            let names = moved.map_values(|id: Seq<char>| display_name(content, id));
            &&& *final(state) == (WorldState { actor_room_overrides: final(state).actor_room_overrides, ..*old(state) })
            &&& forall|k: Seq<char>| #[trigger] final(state).actor_room_overrides@.dom().contains(k)
                <==> old(state).actor_room_overrides@.dom().contains(k) || moved.contains(k)
            &&& forall|k: Seq<char>| #[trigger] final(state).actor_room_overrides@.dom().contains(k) ==>
                final(state).actor_room_overrides@[k]@ == if moved.contains(k) { to_room_id@ } else { old(state).actor_room_overrides@[k]@ }
            &&& exists|keys: Seq<Seq<char>>| strictly_sorted(keys) && keys.to_set() == names.to_set()
                && final(lines).views() == old(lines).views() + follower_report(content, names, spec_summary(names, keys))
        }),
{
    let ghost ids = state.relationships.key_seq();
    let ghost before = *state;
    proof { state.relationships.lemma_contents(); }
    let n = state.relationships.len();
    let mut moved_names: Vec<String> = Vec::new();
    let ghost mut moved: Seq<Seq<char>> = Seq::empty();
    let mut i: usize = 0;
    while i < n
        invariant
            state.wf(),
            content.wf(),
            ids == before.relationships.key_seq(),
            n == ids.len(),
            i <= n,
            forall|a: int, b: int| 0 <= a < b < ids.len() ==> lex_lt(#[trigger] ids[a], #[trigger] ids[b]),
            forall|a: int| 0 <= a < ids.len() ==> #[trigger] before.relationships@.dom().contains(ids[a]),
            *state == (WorldState { actor_room_overrides: state.actor_room_overrides, ..before }),
            moved == moved_followers(&before, content, to_room_id@, ids, i as int),
            forall|a: int| #![trigger moved[a]] 0 <= a < moved.len() ==> exists|b: int| 0 <= b < i && #[trigger] ids[b] == moved[a],
            moved_names@.map_values(|s: String| s@) == moved.map_values(|id: Seq<char>| display_name(content, id)),
            forall|k: Seq<char>| #[trigger] state.actor_room_overrides@.dom().contains(k)
                <==> before.actor_room_overrides@.dom().contains(k) || moved.contains(k),
            forall|k: Seq<char>| #[trigger] state.actor_room_overrides@.dom().contains(k) ==>
                state.actor_room_overrides@[k]@ == if moved.contains(k) { to_room_id@ } else { before.actor_room_overrides@[k]@ },
        decreases n - i,
    {
        let id_chars = state.relationships.key_at(i);
        let follower_id = string_from_chars(id_chars);
        let relationship = *state.relationships.value_at(i);
        let ghost id = ids[i as int];
        proof {
            assert(!moved.contains(id)) by {
                if moved.contains(id) {
                    let a = choose|a: int| 0 <= a < moved.len() && moved[a] == id;
                    let b = choose|b: int| 0 <= b < i && #[trigger] ids[b] == moved[a];
                    crate::text::lemma_lex_irrefl(id);
                }
            }
        }
        let moves = relationship.follows_player
            && !content.is_player_actor(follower_id.as_str())
            && !match content.actor(follower_id.as_str()) {
                Some(actor) => actor.is_offstage(),
                None => false,
            }
            && state.actor_stat(follower_id.as_str(), content.settings.combat.health_stat_id.as_str()) > 0
            && !crate::text::str_eq(state.actor_current_room_id(content, follower_id.as_str()), to_room_id);
        proof {
            assert(state.spec_actor_current_room_id(content, id) == before.spec_actor_current_room_id(content, id));
            assert(moves == follower_moves(&before, content, to_room_id@, id));
        }
        if moves {
            let name = actor_display_name(content, follower_id.as_str());
            let ghost names_before = moved_names@;
            moved_names.push(name);
            state.actor_room_overrides.insert_str(follower_id.as_str(), crate::text::string_of(to_room_id));
            proof {
                lemma_map_values_push(names_before, name, |s: String| s@);
                lemma_map_values_push(moved, id, |x: Seq<char>| display_name(content, x));
                let prev = moved;
                moved = moved.push(id);
                assert forall|k: Seq<char>| #[trigger] moved.contains(k) <==> prev.contains(k) || k == id by {
                    if moved.contains(k) {
                        let a = choose|a: int| 0 <= a < moved.len() && moved[a] == k;
                        if a < prev.len() {
                            assert(prev[a] == k);
                        }
                    }
                    if prev.contains(k) {
                        let a = choose|a: int| 0 <= a < prev.len() && prev[a] == k;
                        assert(moved[a] == k);
                    }
                    if k == id {
                        assert(moved[prev.len() as int] == k);
                    }
                }
                assert forall|a: int| #![trigger moved[a]] 0 <= a < moved.len() implies exists|b: int| 0 <= b < i + 1 && #[trigger] ids[b] == moved[a] by {
                    if a < prev.len() {
                        assert(moved[a] == prev[a]);
                    } else {
                        assert(ids[i as int] == moved[a]);
                    }
                }
            }
        }
        i = i + 1;
    }
    proof {
        assert(moved == followers_moving(&before, content, to_room_id@));
    }
    let count = moved_names.len();
    let group_key = follower_group_message_key(content, count);
    let summary = summarize_actor_names(moved_names.as_slice());
    let ghost names = moved.map_values(|id: Seq<char>| display_name(content, id));
    let ghost keys = choose|keys: Seq<Seq<char>>| strictly_sorted(keys)
        && keys.to_set() == moved_names@.map_values(|s: String| s@).to_set()
        && ({
            let s = spec_summary(moved_names@.map_values(|s: String| s@), keys);
            &&& summary is Some == s is Some
            &&& summary matches Some(t) ==> t@ == s->0
        });
    match (group_key, summary) {
        (Some(key), Some(actors)) => {
            let count_text = string_from_chars(&u64_chars(count as u64));
            let replacements: [(&str, &str); 2] = [("actors", actors.as_str()), ("count", count_text.as_str())];
            proof {
                assert(crate::text::pair_views(replacements@) =~= seq![("actors"@, actors@), ("count"@, nat_text(names.len()))]);
            }
            push_message(lines, content, key, &replacements);
            return;
        },
        _ => {},
    }
    let ghost start = lines.views();
    let mut k: usize = 0;
    while k < count
        invariant
            content.wf(),
            k <= count,
            count == moved_names.len(),
            lines.views() == start + follow_lines(content, names, k as int),
            moved_names@.map_values(|s: String| s@) == names,
        decreases count - k,
    {
        let replacements: [(&str, &str); 1] = [("actor", moved_names[k].as_str())];
        proof {
            assert(names[k as int] == moved_names@[k as int]@);
            assert(crate::text::pair_views(replacements@) =~= seq![("actor"@, names[k as int])]);
        }
        push_message(lines, content, "follow.actor_follows", &replacements);
        k = k + 1;
        assert(lines.views() =~= start + follow_lines(content, names, k as int));
    }
}


/// The text of a signal that names a room: the prefix followed by the id.
fn room_signal(prefix: &str, room_id: &str) -> (r: String)
    ensures
        r@ == prefix@ + room_id@,
{
    let mut text = chars_of(prefix);
    append_chars(&mut text, &chars_of(room_id));
    string_from_chars(&text)
}

/// Whether `after`, with the lines going from `lb` to `la`, is `before` once
/// the followers came along (see `sync_followers_to_room`).
pub open spec fn followers_synced(content: &ContentPack, before: &WorldState, after: &WorldState, to_room: Seq<char>,
    lb: Seq<(NarrativeLineKind, Seq<char>)>, la: Seq<(NarrativeLineKind, Seq<char>)>) -> bool {
    let moved = followers_moving(before, content, to_room);
    let names = moved.map_values(|id: Seq<char>| display_name(content, id));
    &&& *after == (WorldState { actor_room_overrides: after.actor_room_overrides, ..*before })
    &&& forall|k: Seq<char>| #[trigger] after.actor_room_overrides@.dom().contains(k)
        <==> before.actor_room_overrides@.dom().contains(k) || moved.contains(k)
    &&& forall|k: Seq<char>| #[trigger] after.actor_room_overrides@.dom().contains(k) ==>
        after.actor_room_overrides@[k]@ == if moved.contains(k) { to_room } else { before.actor_room_overrides@[k]@ }
    &&& exists|keys: Seq<Seq<char>>| strictly_sorted(keys) && keys.to_set() == names.to_set()
        && la == lb + follower_report(content, names, spec_summary(names, keys))
}

/// Whether `after` is `before` with the player standing in `to_room` and
/// remembering it, nothing else changed.
pub open spec fn placed_in_room(content: &ContentPack, before: &WorldState, after: &WorldState, to_room: Seq<char>) -> bool {
    let player = content.settings.combat.player_actor_id@;
    &&& after.current_room_id@ == to_room
    &&& after.actor_known_room_ids@.dom() == before.actor_known_room_ids@.dom().insert(player)
    &&& after.actor_known_room_ids@[player]@ == crate::state::tracking::set_after_insert(before.actor_known_room_ids@, player, to_room)
    &&& forall|o: Seq<char>| o != player && #[trigger] before.actor_known_room_ids@.dom().contains(o)
        ==> after.actor_known_room_ids@[o] == before.actor_known_room_ids@[o]
    &&& *after == (WorldState { current_room_id: after.current_room_id, actor_known_room_ids: after.actor_known_room_ids, ..*before })
}

/// Whether the player's walk led from `before` to `after`, with the lines
/// going from `lb` to `la`: the stages hear `room_left:<from>` (giving
/// `left` and `k1` narrated messages), the player is placed in the room
/// (`placed`), the stages hear `room_entered:<to>` (giving `entered` and `k2`
/// narrated messages), and the followers come along with their report.
pub open spec fn player_walked(content: &ContentPack, before: &WorldState, left: WorldState, placed: WorldState, entered: WorldState,
    after: &WorldState, to_room: Seq<char>, adv1: Seq<bool>, adv2: Seq<bool>, k1: nat, k2: nat,
    lb: Seq<(NarrativeLineKind, Seq<char>)>, la: Seq<(NarrativeLineKind, Seq<char>)>) -> bool {
    let told = lb.len() + k1 + k2;
    &&& only_story_fields_changed(before, &left)
    &&& advance_outcome(before, &left, content, "room_left:"@ + before.current_room_id@, adv1, k1)
    &&& exists|o1: Seq<AdvanceSnap>| #[trigger] advance_trace(content, before, "room_left:"@ + before.current_room_id@, adv1, o1)
        && advance_settled(content, o1.last(), &left, o1.last().2)
        && la.subrange(lb.len() as int, (lb.len() + k1) as int) == o1.last().2.map_values(|t: Seq<char>| (NarrativeLineKind::Narration, t))
    &&& placed_in_room(content, &left, &placed, to_room)
    &&& only_story_fields_changed(&placed, &entered)
    &&& advance_outcome(&placed, &entered, content, "room_entered:"@ + to_room, adv2, k2)
    &&& exists|o2: Seq<AdvanceSnap>| #[trigger] advance_trace(content, &placed, "room_entered:"@ + to_room, adv2, o2)
        && advance_settled(content, o2.last(), &entered, o2.last().2)
        && la.subrange((lb.len() + k1) as int, told as int) == o2.last().2.map_values(|t: Seq<char>| (NarrativeLineKind::Narration, t))
    &&& la.len() >= told
    &&& la.take(lb.len() as int) == lb
    &&& forall|i: int| lb.len() <= i < told ==> (#[trigger] la[i]).0 == NarrativeLineKind::Narration
    &&& followers_synced(content, &entered, after, to_room, la.take(told as int), la)
    // The clock moves only by the minutes of the stages started on leaving
    // and on entering.
    &&& after.current_time_minutes == before.current_time_minutes
        + elapsed_upto(content.beats.stages@, before.active_objective_stage_ids@.map_values(|s: String| s@), adv1,
            before.active_objective_stage_ids.len() as int)
        + elapsed_upto(content.beats.stages@, placed.active_objective_stage_ids@.map_values(|s: String| s@), adv2,
            placed.active_objective_stage_ids.len() as int)
}

proof fn lemma_quiet_minutes(stages: Seq<crate::content::BeatDefinition>, active: Seq<Seq<char>>, adv: Seq<bool>, i: int)
    requires
        0 <= i <= adv.len(),
        forall|j: int| 0 <= j < adv.len() ==> !adv[j],
    ensures
        elapsed_upto(stages, active, adv, i) == 0,
    decreases i,
{
    if i > 0 {
        lemma_quiet_minutes(stages, active, adv, i - 1);
    }
}

/// A walk on which no stage fires, neither on leaving nor on entering, lets
/// no time pass.
pub proof fn law_quiet_walk_keeps_the_clock(content: &ContentPack, before: &WorldState, left: WorldState, placed: WorldState,
    entered: WorldState, after: &WorldState, to_room: Seq<char>, adv1: Seq<bool>, adv2: Seq<bool>, k1: nat, k2: nat,
    lb: Seq<(NarrativeLineKind, Seq<char>)>, la: Seq<(NarrativeLineKind, Seq<char>)>)
    requires
        player_walked(content, before, left, placed, entered, after, to_room, adv1, adv2, k1, k2, lb, la),
        forall|j: int| 0 <= j < adv1.len() ==> !adv1[j],
        forall|j: int| 0 <= j < adv2.len() ==> !adv2[j],
    ensures
        after.current_time_minutes == before.current_time_minutes,
{
    lemma_quiet_minutes(content.beats.stages@, before.active_objective_stage_ids@.map_values(|s: String| s@), adv1,
        before.active_objective_stage_ids.len() as int);
    lemma_quiet_minutes(content.beats.stages@, placed.active_objective_stage_ids@.map_values(|s: String| s@), adv2,
        placed.active_objective_stage_ids.len() as int);
}

/// Whether some walk of the player into `to_room` leads from `before` to
/// `after` (see `player_walked`).
pub open spec fn walked_to(content: &ContentPack, before: &WorldState, after: &WorldState, to_room: Seq<char>) -> bool {
    exists|left: WorldState, placed: WorldState, entered: WorldState, adv1: Seq<bool>, adv2: Seq<bool>, k1: nat, k2: nat,
        lb: Seq<(NarrativeLineKind, Seq<char>)>, la: Seq<(NarrativeLineKind, Seq<char>)>|
        #[trigger] player_walked(content, before, left, placed, entered, after, to_room, adv1, adv2, k1, k2, lb, la)
}

/// The world as a turn starts: only the turn number changes.
pub open spec fn turn_started(before: WorldState, turn_number: u32) -> WorldState {
    WorldState { turn_number: turn_number, ..before }
}

/// The player walks into another room: the stages hear that the player left
/// the old room, the player is placed in the new room and remembers it, the
/// stages hear that the player entered it, and the followers come along.
pub fn handle_player_moved(state: &mut WorldState, content: &ContentPack, to_room_id: &str, lines: &mut NarrativeLines)
    requires
        old(state).wf(),
        content.wf(),
        signal_headroom(old(state), content, 2),
    ensures
        final(state).wf(),
        final(state).current_room_id@ == to_room_id@,
        final(state).turn_number == old(state).turn_number,
        final(state).followed_actor_id == old(state).followed_actor_id,
        final(state).current_time_minutes >= old(state).current_time_minutes,
        final(state).actor_known_room_ids@.dom().contains(content.settings.combat.player_actor_id@),
        final(state).actor_known_room_ids@[content.settings.combat.player_actor_id@]@.contains(to_room_id@),
        final(lines).views().len() >= old(lines).views().len(),
        final(lines).views().take(old(lines).views().len() as int) == old(lines).views(),
        exists|left: WorldState, placed: WorldState, entered: WorldState, adv1: Seq<bool>, adv2: Seq<bool>, k1: nat, k2: nat|
            #[trigger] player_walked(content, old(state), left, placed, entered, final(state), to_room_id@, adv1, adv2, k1, k2,
                old(lines).views(), final(lines).views()),
{
    proof {
        crate::reducer::beat_advance::lemma_room_fewer(state.current_time_minutes as int, state.stages_completed as int,
            state.active_objective_stage_ids.len() as int, crate::reducer::beat_advance::max_next_len(content.beats.stages@) as int,
            crate::reducer::beat_advance::max_elapsed(content.beats.stages@) as int, 2, 1);
    }
    let ghost start = *state;
    let from_room_id = crate::text::string_of(state.current_room_id.as_str());
    let left_signal = room_signal("room_left:", from_room_id.as_str());
    let left = advance_objective_for_signal(state, content, left_signal.as_str());
    let ghost left_state = *state;
    let ghost k1 = left@.len();
    assert(signal_headroom(&start, content, 1 + 1));
    assert(signal_headroom(state, content, 1));
    let ghost lines0 = lines.views();
    lines.extend_narration(left);
    state.current_room_id = crate::text::string_of(to_room_id);
    state.mark_actor_room_visited(content.settings.combat.player_actor_id.as_str(), to_room_id);
    let ghost placed = *state;
    let entered_signal = room_signal("room_entered:", to_room_id);
    let entered = advance_objective_for_signal(state, content, entered_signal.as_str());
    let ghost entered_state = *state;
    let ghost k2 = entered@.len();
    let ghost lines1 = lines.views();
    lines.extend_narration(entered);
    let ghost lines2 = lines.views();
    sync_followers_to_room(state, content, to_room_id, lines);
    proof {
        assert(lines2.take(lines0.len() as int) =~= lines0);
        assert(lines.views().take(lines0.len() as int) =~= lines0);
        let (adv1, o1) = choose|adv: Seq<bool>, outer: Seq<AdvanceSnap>| #[trigger] advance_trace(content, &start, left_signal@, adv, outer)
            && advance_outcome(&start, &left_state, content, left_signal@, adv, k1)
            && advance_settled(content, outer.last(), &left_state, left@.map_values(|s: String| s@));
        let (adv2, o2) = choose|adv: Seq<bool>, outer: Seq<AdvanceSnap>| #[trigger] advance_trace(content, &placed, entered_signal@, adv, outer)
            && advance_outcome(&placed, &entered_state, content, entered_signal@, adv, k2)
            && advance_settled(content, outer.last(), &entered_state, entered@.map_values(|s: String| s@));
        assert(lines.views().subrange(lines0.len() as int, (lines0.len() + k1) as int) =~= o1.last().2.map_values(|t: Seq<char>| (NarrativeLineKind::Narration, t))) by {
            assert forall|q: int| 0 <= q < k1 implies lines.views().subrange(lines0.len() as int, (lines0.len() + k1) as int)[q]
                == (NarrativeLineKind::Narration, o1.last().2[q]) by {
                assert(lines.views()[lines0.len() + q] == lines2[lines0.len() + q]);
                assert(lines1[lines0.len() + q] == lines2[lines0.len() + q]);
                assert(lines1[lines0.len() + q] == (NarrativeLineKind::Narration, left@[q]@));
            }
        }
        assert(lines.views().subrange((lines0.len() + k1) as int, (lines0.len() + k1 + k2) as int) =~= o2.last().2.map_values(|t: Seq<char>| (NarrativeLineKind::Narration, t))) by {
            assert forall|q: int| 0 <= q < k2 implies lines.views().subrange((lines0.len() + k1) as int, (lines0.len() + k1 + k2) as int)[q]
                == (NarrativeLineKind::Narration, o2.last().2[q]) by {
                assert(lines.views()[lines1.len() + q] == lines2[lines1.len() + q]);
                assert(lines2[lines1.len() + q] == (NarrativeLineKind::Narration, entered@[q]@));
            }
        }
        let told = lines0.len() + k1 + k2;
        assert(lines2.len() == told);
        assert(lines.views().take(told as int) =~= lines2);
        assert forall|i: int| lines0.len() <= i < told implies (#[trigger] lines.views()[i]).0 == NarrativeLineKind::Narration by {
            assert(lines.views()[i] == lines2[i]);
            if i < lines1.len() {
                assert(lines1[i] == lines2[i]);
                assert(lines1[i] == (NarrativeLineKind::Narration, left@[i - lines0.len()]@));
            } else {
                assert(lines2[i] == (NarrativeLineKind::Narration, entered@[i - lines1.len()]@));
            }
        }
        assert(placed_in_room(content, &left_state, &placed, to_room_id@));
        assert(followers_synced(content, &entered_state, &*state, to_room_id@, lines2, lines.views()));
        assert(player_walked(content, &start, left_state, placed, entered_state, &*state, to_room_id@, adv1, adv2, k1, k2,
            lines0, lines.views()));
    }
}


/// The lines that telling of a room adds: its summary observation, or the
/// pack's missing-room error when the pack has no such room.
pub open spec fn room_view_lines(content: &ContentPack, state: &WorldState, room_id: Seq<char>) -> Seq<(NarrativeLineKind, Seq<char>)> {
    if content.has_room(room_id) {
        observation_lines(content, state, room_id, ObservationMode::Summary)
    } else {
        seq![(NarrativeLineKind::Error, content.presentation.error_text.room_missing@)]
    }
}

/// What the room adds at the end of a look: the room's lines while the game
/// is active, nothing once it has paused or ended.
pub open spec fn looked_lines(content: &ContentPack, state: &WorldState, room_id: Seq<char>) -> Seq<(NarrativeLineKind, Seq<char>)> {
    if state.phase == GamePhase::Active {
        room_view_lines(content, state, room_id)
    } else {
        Seq::empty()
    }
}

/// The player goes to a room and looks at it: they walk there when they are
/// elsewhere, and the room is told while the game is active.
pub fn walk_and_observe(state: &mut WorldState, content: &ContentPack, to_room_id: &str, lines: &mut NarrativeLines)
    requires
        old(state).wf(),
        content.wf(),
        old(state).current_room_id@ != to_room_id@ ==> signal_headroom(old(state), content, 2),
    ensures
        final(state).wf(),
        final(state).current_room_id@ == to_room_id@,
        final(state).turn_number == old(state).turn_number,
        final(state).followed_actor_id == old(state).followed_actor_id,
        final(state).current_time_minutes >= old(state).current_time_minutes,
        old(state).current_room_id@ == to_room_id@ ==> *final(state) == *old(state)
            && final(lines).views() == old(lines).views() + looked_lines(content, &*final(state), to_room_id@),
        old(state).current_room_id@ != to_room_id@ ==> walked_to(content, old(state), final(state), to_room_id@),
        ({
            let tail = looked_lines(content, &*final(state), to_room_id@);
            &&& final(lines).views().len() >= old(lines).views().len() + tail.len()
            &&& final(lines).views().take(old(lines).views().len() as int) == old(lines).views()
            &&& final(lines).views().skip(final(lines).views().len() - tail.len()) == tail
        }),
{
    let ghost start = lines.views();
    if !crate::text::str_eq(state.current_room_id.as_str(), to_room_id) {
        handle_player_moved(state, content, to_room_id, lines);
    }
    let ghost mid = lines.views();
    if state.phase == GamePhase::Active {
        handle_current_room_observed(state, content, to_room_id, ObservationMode::Summary, lines);
    }
    proof {
        let tail = looked_lines(content, &*state, to_room_id@);
        assert(lines.views() =~= mid + tail);
        assert(lines.views().skip(lines.views().len() - tail.len()) =~= tail);
        assert(mid.take(start.len() as int) == start);
        assert(lines.views().take(start.len() as int) =~= start);
    }
}

/// Applies a turn in which the player only changes where they look: the
/// turn starts without time passing, then, when a room is given, the player
/// goes there and looks at it.
pub fn apply_view_turn(state: &mut WorldState, content: &ContentPack, turn_number: u32, to_room_id: Option<&str>) -> (r: ReducerOutput)
    requires
        old(state).wf(),
        content.wf(),
        to_room_id matches Some(room) && old(state).current_room_id@ != room@ ==> signal_headroom(old(state), content, 2),
    ensures
        final(state).wf(),
        final(state).turn_number == turn_number,
        final(state).followed_actor_id == old(state).followed_actor_id,
        final(state).current_time_minutes >= old(state).current_time_minutes,
        r.phase == final(state).phase,
        to_room_id is None ==> *final(state) == (WorldState { turn_number: turn_number, ..*old(state) }) && r.lines.views().len() == 0,
        to_room_id matches Some(room) ==> {
            let tail = looked_lines(content, &*final(state), room@);
            &&& final(state).current_room_id@ == room@
            &&& old(state).current_room_id@ == room@ ==> *final(state) == (WorldState { turn_number: turn_number, ..*old(state) })
                && r.lines.views() == tail
            &&& old(state).current_room_id@ != room@ ==> walked_to(content, &turn_started(*old(state), turn_number), final(state), room@)
            &&& r.lines.views().len() >= tail.len()
            &&& r.lines.views().skip(r.lines.views().len() - tail.len()) == tail
        },
{
    state.turn_number = turn_number;
    let mut lines = NarrativeLines::new();
    assert(lines.views() =~= Seq::<(NarrativeLineKind, Seq<char>)>::empty());
    match to_room_id {
        Some(room) => {
            walk_and_observe(state, content, room, &mut lines);
            assert(Seq::<(NarrativeLineKind, Seq<char>)>::empty() + looked_lines(content, &*state, room@)
                =~= looked_lines(content, &*state, room@));
        },
        None => {},
    }
    ReducerOutput { lines, phase: state.phase }
}

} // verus!

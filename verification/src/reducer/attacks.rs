use vstd::prelude::*;
use crate::content::{ContentPack, ItemStorageTarget};
use crate::narrative::{NarrativeLineKind, NarrativeLines};
use crate::state::{ActorRelationship, ActorStance, WorldState};
use crate::state::stats::bonus_sum;
use crate::text::{cat, i64_chars, int_text, nat_text, pair_views, string_from_chars, string_of, u64_chars};
use crate::state::inventory::{count_in, room_item_key};
use super::observation::join_texts;
use super::summaries::join_with;
use super::combat::{actor_display_name, ally_attack_contribution, award_defeat_xp, display_name, level_tables_bounded,
    participating_allies, resistance_of, resisted_damage, spec_ally_contribution, spec_participating_allies, spec_resisted_damage,
    xp_award_outcome, defeat_player_if_dead};
use crate::state::GamePhase;
use super::observation::story_text;

verus! {

/// The kind of damage an actor deals: its authored kind, physical when it
/// has none or the pack does not know it.
pub open spec fn attack_kind_of(content: &ContentPack, actor_id: Seq<char>) -> Seq<char> {
    if content.has_actor(actor_id) {
        match content.spec_actor(actor_id).attack_kind {
            Some(k) => k@,
            None => "physical"@,
        }
    } else {
        "physical"@
    }
}

pub fn attack_kind(content: &ContentPack, actor_id: &str) -> (r: String)
    ensures
        r@ == attack_kind_of(content, actor_id@),
{
    match content.actor(actor_id) {
        Some(actor) => match &actor.attack_kind {
            Some(k) => k.clone(),
            None => string_of("physical"),
        },
        None => string_of("physical"),
    }
}

/// Minutes between an actor's strikes once it turns hostile: its own
/// interval, or the pack's default.
pub open spec fn strike_interval(content: &ContentPack, actor_id: Seq<char>) -> u32 {
    let default = content.settings.combat.default_attack_interval_minutes;
    if content.has_actor(actor_id) {
        match content.spec_actor(actor_id).attack_interval_minutes {
            Some(m) => m,
            None => default,
        }
    } else {
        default
    }
}

pub fn attack_interval(content: &ContentPack, actor_id: &str) -> (r: u32)
    ensures
        r == strike_interval(content, actor_id@),
{
    match content.actor(actor_id) {
        Some(actor) => match actor.attack_interval_minutes {
            Some(m) => m,
            None => content.settings.combat.default_attack_interval_minutes,
        },
        None => content.settings.combat.default_attack_interval_minutes,
    }
}

/// The narration a pack message yields: its rendered text, when the pack
/// has the message.
pub open spec fn narrated(content: &ContentPack, key: Seq<char>, replacements: Seq<(Seq<char>, Seq<char>)>)
    -> Seq<(NarrativeLineKind, Seq<char>)> {
    match content.spec_render_message(key, replacements) {
        Some(t) => seq![(NarrativeLineKind::Narration, t)],
        None => Seq::empty(),
    }
}

/// Narrates a pack message when the pack has it.
fn narrate_message(lines: &mut NarrativeLines, content: &ContentPack, key: &str, replacements: &[(&str, &str)])
    requires
        content.wf(),
    ensures
        final(lines).views() == old(lines).views() + narrated(content, key@, pair_views(replacements@)),
{
    match content.render_message(key, replacements) {
        Some(t) => {
            let ghost tv = t@;
            lines.narration(t);
            assert(lines.views() =~= old(lines).views() + seq![(NarrativeLineKind::Narration, tv)]);
        },
        None => {
            assert(lines.views() =~= old(lines).views() + Seq::<(NarrativeLineKind, Seq<char>)>::empty());
        },
    }
}

fn int_string(n: i32) -> (r: String)
    ensures
        r@ == int_text(n as int),
{
    string_from_chars(&i64_chars(n as i64))
}

/// `a + b` held within the range of `i32`.
pub open spec fn saturating_sum(a: int, b: int) -> int {
    if a + b > i32::MAX { i32::MAX as int } else if a + b < i32::MIN { i32::MIN as int } else { a + b }
}

/// The allies' combined share of an attack: their contributions added up
/// in order, held within the range of `i32`.
pub open spec fn allies_total(state: &WorldState, content: &ContentPack, allies: Seq<Seq<char>>, n: int) -> int
    decreases n,
{
    if n <= 0 {
        0
    } else {
        saturating_sum(allies_total(state, content, allies, n - 1), spec_ally_contribution(state, content, allies[n - 1]))
    }
}

/// The player's own blow: attack against the target's defence, never below
/// the pack's minimum damage.
pub open spec fn attack_base(state: &WorldState, content: &ContentPack, target: Seq<char>) -> int {
    let c = content.settings.combat;
    let d = state.spec_effective_actor_stat(content, c.player_actor_id@, c.attack_stat_id@)
        - state.spec_effective_actor_stat(content, target, c.defense_stat_id@);
    if d > c.minimum_damage { d } else { c.minimum_damage as int }
}

/// The attack before resistance: the player's blow and the allies' shares.
pub open spec fn attack_raw(state: &WorldState, content: &ContentPack, target: Seq<char>, room: Seq<char>) -> int {
    let allies = spec_participating_allies(state, content, room);
    attack_base(state, content, target) + allies_total(state, content, allies, allies.len() as int)
}

/// The damage that lands: the raw attack less the target's resistance to the
/// player's kind of attack.
pub open spec fn attack_total(state: &WorldState, content: &ContentPack, target: Seq<char>, room: Seq<char>) -> int {
    spec_resisted_damage(content, target, attack_kind_of(content, content.settings.combat.player_actor_id@),
        attack_raw(state, content, target, room))
}

/// Whether every number the attack computes fits its machine type: the
/// stats read with equipment bonuses, their difference, the raw attack, the
/// resisted damage, the target's health after the blow, the time of the
/// target's first strike, and the room's counts of what it drops.
pub open spec fn attack_fits(state: &WorldState, content: &ContentPack, target: Seq<char>, room: Seq<char>) -> bool {
    let c = content.settings.combat;
    let player = c.player_actor_id@;
    let attack = state.spec_effective_actor_stat(content, player, c.attack_stat_id@);
    let defense = state.spec_effective_actor_stat(content, target, c.defense_stat_id@);
    let raw = attack_raw(state, content, target, room);
    let kind = attack_kind_of(content, player);
    &&& forall|n: int| 0 <= n <= state.equipped_ids().len() ==> i32::MIN <= #[trigger] bonus_sum(content, state.equipped_ids(), c.attack_stat_id@, n) <= i32::MAX
    &&& forall|n: int| 0 <= n <= state.equipped_ids().len() ==> i32::MIN <= #[trigger] bonus_sum(content, state.equipped_ids(), c.defense_stat_id@, n) <= i32::MAX
    &&& i32::MIN <= attack <= i32::MAX
    &&& i32::MIN <= defense <= i32::MAX
    &&& i32::MIN <= attack - defense <= i32::MAX
    &&& i32::MIN <= raw <= i32::MAX
    &&& i32::MIN <= raw - resistance_of(content, target, kind) <= i32::MAX
    &&& state.actor_stat_defs@.dom().contains(c.health_stat_id@) ==>
        i32::MIN <= state.spec_actor_stat(target, c.health_stat_id@) - attack_total(state, content, target, room) <= i32::MAX
    &&& state.current_time_minutes + strike_interval(content, target) <= u32::MAX
    &&& actor_drops_fit(state, content, target, room)
}

/// Whether `after` is `before` with `delta` added to one stat of an actor,
/// as `adjust_actor_stat` does it: a declared stat moves within its bounds,
/// an undeclared one leaves the stats as they were.
pub open spec fn stat_adjusted(before: &WorldState, after: &WorldState, actor_id: Seq<char>, stat: Seq<char>, delta: int) -> bool {
    let k = before.spec_remap(actor_id);
    &&& *after == (WorldState { actor_stats: after.actor_stats, ..*before })
    &&& !before.actor_stat_defs@.dom().contains(stat) ==> after.actor_stats == before.actor_stats
    &&& before.actor_stat_defs@.dom().contains(stat) ==> {
        &&& after.actor_stats@ == before.actor_stats@.insert(k, after.actor_stats@[k])
        &&& after.actor_stats@[k]@ == (if before.actor_stats@.dom().contains(k) { before.actor_stats@[k]@ } else { Map::empty() })
            .insert(stat, before.actor_stat_defs@[stat].spec_clamp(before.spec_actor_stat(actor_id, stat) + delta) as i32)
    }
}

/// The lines announcing each ally's share of the attack, in order.
pub open spec fn ally_lines(state: &WorldState, content: &ContentPack, allies: Seq<Seq<char>>, n: int)
    -> Seq<(NarrativeLineKind, Seq<char>)>
    decreases n,
{
    if n <= 0 {
        Seq::empty()
    } else {
        ally_lines(state, content, allies, n - 1) + narrated(content, "combat.ally_joins_attack"@,
            seq![("actor"@, display_name(content, allies[n - 1])),
                ("damage"@, int_text(spec_ally_contribution(state, content, allies[n - 1])))])
    }
}

/// The room stock after the first `n` of an actor's drops: each drop with a
/// count adds that many of its item to the room.
pub open spec fn stock_after_drops(stock: Map<Seq<char>, u32>, room: Seq<char>, items: Seq<Seq<char>>, counts: Seq<u32>, n: int)
    -> Map<Seq<char>, u32>
    decreases n,
{
    if n <= 0 {
        stock
    } else {
        let prev = stock_after_drops(stock, room, items, counts, n - 1);
        let key = room_item_key(room, items[n - 1]);
        if counts[n - 1] > 0 { prev.insert(key, (count_in(prev, key) + counts[n - 1]) as u32) } else { prev }
    }
}

/// Whether the room's counts stay within `u32` while the first `n` drops
/// are added.
pub open spec fn drops_fit(stock: Map<Seq<char>, u32>, room: Seq<char>, items: Seq<Seq<char>>, counts: Seq<u32>, n: int) -> bool
    decreases n,
{
    n <= 0 || {
        &&& drops_fit(stock, room, items, counts, n - 1)
        &&& counts[n - 1] > 0 ==> count_in(stock_after_drops(stock, room, items, counts, n - 1), room_item_key(room, items[n - 1]))
            + counts[n - 1] <= u32::MAX
    }
}

/// How a dropped item is listed: its label, with the count when more than
/// one.
pub open spec fn drop_label(content: &ContentPack, item: Seq<char>, count: u32) -> Seq<char> {
    let label = content.spec_item(item).label@;
    if count > 1 { label + " x"@ + nat_text(count as nat) } else { label }
}

/// The labels of the first `n` drops that have a count and that the pack
/// knows as items.
pub open spec fn drop_labels(content: &ContentPack, items: Seq<Seq<char>>, counts: Seq<u32>, n: int) -> Seq<Seq<char>>
    decreases n,
{
    if n <= 0 {
        Seq::empty()
    } else {
        let prev = drop_labels(content, items, counts, n - 1);
        if counts[n - 1] > 0 && content.has_item(items[n - 1]) { prev.push(drop_label(content, items[n - 1], counts[n - 1])) } else { prev }
    }
}

/// Whether an actor's drops fit into the room's counts.
pub open spec fn actor_drops_fit(state: &WorldState, content: &ContentPack, actor_id: Seq<char>, room: Seq<char>) -> bool {
    content.has_actor(actor_id) ==> {
        let d = content.spec_actor(actor_id).drops;
        drops_fit(state.room_item_stock@, room, d.key_seq(), d.val_seq(), d.key_seq().len() as int)
    }
}

/// What a defeated actor leaves behind: every item it drops, in item order,
/// lands in the room with its count, and when the pack knows any of them the
/// drop is announced with their labels.
pub open spec fn drops_spawned(before: &WorldState, after: &WorldState, content: &ContentPack, actor_id: Seq<char>, room: Seq<char>,
    lb: Seq<(NarrativeLineKind, Seq<char>)>, la: Seq<(NarrativeLineKind, Seq<char>)>) -> bool {
    if !content.has_actor(actor_id) {
        *after == *before && la == lb
    } else {
        let d = content.spec_actor(actor_id).drops;
        let n = d.key_seq().len() as int;
        let labels = drop_labels(content, d.key_seq(), d.val_seq(), n);
        &&& *after == (WorldState { room_item_stock: after.room_item_stock, ..*before })
        &&& after.room_item_stock@ == stock_after_drops(before.room_item_stock@, room, d.key_seq(), d.val_seq(), n)
        &&& la == lb + if labels.len() > 0 {
            narrated(content, "combat.defeat_drop"@, seq![("actor"@, display_name(content, actor_id)),
                ("items"@, join_with(labels, ", "@)), ("room"@, room)])
        } else {
            Seq::empty()
        }
    }
}

/// Leaves a defeated actor's drops in the room and announces them.
pub fn spawn_defeat_drops(state: &mut WorldState, content: &ContentPack, actor_id: &str, room_id: &str, lines: &mut NarrativeLines)
    requires
        old(state).wf(),
        content.wf(),
        actor_drops_fit(old(state), content, actor_id@, room_id@),
    ensures
        final(state).wf(),
        drops_spawned(old(state), final(state), content, actor_id@, room_id@, old(lines).views(), final(lines).views()),
{
    let actor = match content.actor(actor_id) {
        Some(a) => a,
        None => {
            assert(lines.views() =~= old(lines).views());
            return;
        },
    };
    proof { content.lemma_actor_wf(actor_id@); }
    let drops = &actor.drops;
    let ghost items = drops.key_seq();
    let ghost counts = drops.val_seq();
    proof { drops.lemma_contents(); }
    let n = drops.len();
    let mut labels: Vec<String> = Vec::new();
    let mut i: usize = 0;
    while i < n
        invariant
            state.wf(),
            content.wf(),
            drops.wf(),
            items == drops.key_seq(),
            counts == drops.val_seq(),
            n == items.len(),
            counts.len() == items.len(),
            i <= n,
            drops_fit(old(state).room_item_stock@, room_id@, items, counts, n as int),
            *state == (WorldState { room_item_stock: state.room_item_stock, ..*old(state) }),
            state.room_item_stock@ == stock_after_drops(old(state).room_item_stock@, room_id@, items, counts, i as int),
            labels@.map_values(|s: String| s@) == drop_labels(content, items, counts, i as int),
            lines.views() == old(lines).views(),
        decreases n - i,
    {
        let item_id = string_from_chars(drops.key_at(i));
        let count = *drops.value_at(i);
        let ghost key = room_item_key(room_id@, item_id@);
        let ghost prev = state.room_item_stock@;
        let ghost base = count_in(prev, key);
        proof {
            lemma_drops_fit_prefix(old(state).room_item_stock@, room_id@, items, counts, n as int, i as int + 1);
        }
        let mut j: u32 = 0;
        while j < count
            invariant
                state.wf(),
                j <= count,
                base + count <= u32::MAX,
                base == count_in(prev, key),
                key == room_item_key(room_id@, item_id@),
                *state == (WorldState { room_item_stock: state.room_item_stock, ..*old(state) }),
                state.room_item_stock@ == if j == 0 { prev } else { prev.insert(key, (base + j) as u32) },
            decreases count - j,
        {
            assert(count_in(state.room_item_stock@, key) == base + j);
            state.add_item_to_storage(item_id.as_str(), ItemStorageTarget::CurrentRoom, room_id);
            assert(state.room_item_stock@ =~= prev.insert(key, (base + j + 1) as u32));
            j = j + 1;
        }
        match content.item(item_id.as_str()) {
            Some(item) => {
                if count > 0 {
                    let label = if count > 1 {
                        let with_x = cat(item.label.as_str(), " x");
                        cat(with_x.as_str(), string_from_chars(&u64_chars(count as u64)).as_str())
                    } else {
                        item.label.clone()
                    };
                    let ghost before = labels@;
                    labels.push(label);
                    proof { crate::text::lemma_map_values_push(before, label, |s: String| s@); }
                }
            },
            None => {},
        }
        i = i + 1;
    }
    if labels.len() == 0 {
        assert(lines.views() =~= old(lines).views() + Seq::<(NarrativeLineKind, Seq<char>)>::empty());
        return;
    }
    let items_text = join_texts(&labels, ", ");
    let name = actor_display_name(content, actor_id);
    let replacements: [(&str, &str); 3] = [("actor", name.as_str()), ("items", items_text.as_str()), ("room", room_id)];
    assert(pair_views(replacements@) =~= seq![("actor"@, display_name(content, actor_id@)),
        ("items"@, join_with(drop_labels(content, items, counts, n as int), ", "@)), ("room"@, room_id@)]);
    narrate_message(lines, content, "combat.defeat_drop", &replacements);
}

proof fn lemma_drops_fit_prefix(stock: Map<Seq<char>, u32>, room: Seq<char>, items: Seq<Seq<char>>, counts: Seq<u32>, n: int, i: int)
    requires
        drops_fit(stock, room, items, counts, n),
        0 <= i <= n,
    ensures
        drops_fit(stock, room, items, counts, i),
    decreases n - i,
{
    if i < n {
        lemma_drops_fit_prefix(stock, room, items, counts, n - 1, i);
    }
}

/// What defeating an actor does: the defeat is announced, the actor's drops
/// land in the room (see `drops_spawned`), its experience is awarded (see
/// `xp_award_outcome`), and its relationship (with any pending strike) is
/// cleared.
pub open spec fn defeat_outcome(before: &WorldState, after: &WorldState, content: &ContentPack, actor_id: Seq<char>, room: Seq<char>,
    lb: Seq<(NarrativeLineKind, Seq<char>)>, la: Seq<(NarrativeLineKind, Seq<char>)>) -> bool {
    let k = before.spec_remap(actor_id);
    let announced = lb + narrated(content, "combat.actor_defeated"@, seq![("actor"@, display_name(content, actor_id))]);
    &&& exists|dropped: WorldState, ld: Seq<(NarrativeLineKind, Seq<char>)>, awarded: WorldState|
        #[trigger] drops_spawned(before, &dropped, content, actor_id, room, announced, ld)
        && #[trigger] xp_award_outcome(&dropped, &awarded, content, actor_id, ld, la)
        && *after == (WorldState { relationships: after.relationships, next_hostile_strike_at: after.next_hostile_strike_at, ..awarded })
    &&& after.relationships@ == before.relationships@.remove(k)
    &&& after.next_hostile_strike_at@ == before.next_hostile_strike_at@.remove(k)
}

/// What a blow that did not defeat the target does to its stance: a target
/// that was neither allied nor hostile turns hostile, is due to strike after
/// its interval, and the waking is announced; any other target is left as it
/// was.
pub open spec fn woken(before: &WorldState, after: &WorldState, content: &ContentPack, target: Seq<char>,
    lb: Seq<(NarrativeLineKind, Seq<char>)>, la: Seq<(NarrativeLineKind, Seq<char>)>) -> bool {
    let rel = before.spec_relationship(target);
    if rel.stance != ActorStance::Allied && rel.stance != ActorStance::Hostile {
        &&& after.relationships@ == before.relationships@.insert(before.spec_remap(target),
            ActorRelationship { stance: ActorStance::Hostile, follows_player: rel.follows_player })
        &&& after.next_hostile_strike_at@ == before.next_hostile_strike_at@.insert(target,
            (before.current_time_minutes + strike_interval(content, target)) as u32)
        &&& *after == (WorldState { relationships: after.relationships, next_hostile_strike_at: after.next_hostile_strike_at, ..*before })
        &&& la == lb + narrated(content, "combat.actor_wakes_hostile"@, seq![("actor"@, display_name(content, target))])
    } else {
        *after == *before && la == lb
    }
}

/// What the player's attack on a target that is not an ally does. When the
/// target's resistance swallows a positive attack, that is announced and the
/// target wakes (see `woken`). Otherwise the damage is taken from the
/// target's health, the hit and each ally's share are announced, and the
/// target is defeated when its health is gone (see `defeat_outcome`), or
/// else wakes.
pub open spec fn attack_outcome(before: &WorldState, after: &WorldState, content: &ContentPack, target: Seq<char>, room: Seq<char>,
    lb: Seq<(NarrativeLineKind, Seq<char>)>, la: Seq<(NarrativeLineKind, Seq<char>)>) -> bool {
    let c = content.settings.combat;
    let name = display_name(content, target);
    let raw = attack_raw(before, content, target, room);
    let total = attack_total(before, content, target, room);
    let kind = attack_kind_of(content, c.player_actor_id@);
    let allies = spec_participating_allies(before, content, room);
    if raw > 0 && total == 0 {
        woken(before, after, content, target,
            lb + narrated(content, "combat.no_effect"@, seq![("actor"@, name), ("kind"@, kind)]), la)
    } else {
        exists|hit: WorldState| #[trigger] stat_adjusted(before, &hit, target, c.health_stat_id@, -total) && {
            let remaining = hit.spec_actor_stat(target, c.health_stat_id@);
            let told = lb + narrated(content, "combat.attack_hit"@,
                seq![("actor"@, name), ("damage"@, int_text(total)), ("remaining"@, int_text(remaining))])
                + ally_lines(&hit, content, allies, allies.len() as int);
            if remaining <= 0 {
                defeat_outcome(&hit, after, content, target, room, told, la)
            } else {
                woken(&hit, after, content, target, told, la)
            }
        }
    }
}

/// The defeat of an actor whose health ran out, in a room: it is
/// announced, its drops land in the room, its experience is awarded, and its
/// relationship is cleared.
pub fn defeat_actor(state: &mut WorldState, content: &ContentPack, actor_id: &str, room_id: &str, lines: &mut NarrativeLines)
    requires
        old(state).wf(),
        content.wf(),
        level_tables_bounded(content),
        old(state).relationships.key_seq().len() < u32::MAX,
        actor_drops_fit(old(state), content, actor_id@, room_id@),
    ensures
        final(state).wf(),
        defeat_outcome(old(state), final(state), content, actor_id@, room_id@, old(lines).views(), final(lines).views()),
{
    let name = actor_display_name(content, actor_id);
    let replacements: [(&str, &str); 1] = [("actor", name.as_str())];
    assert(pair_views(replacements@) =~= seq![("actor"@, display_name(content, actor_id@))]);
    narrate_message(lines, content, "combat.actor_defeated", &replacements);
    let ghost announced = lines.views();
    spawn_defeat_drops(state, content, actor_id, room_id, lines);
    let ghost dropped = *state;
    let ghost ld = lines.views();
    award_defeat_xp(state, content, actor_id, lines);
    let ghost awarded = *state;
    state.set_relationship(actor_id, ActorRelationship::default());
    assert(drops_spawned(old(state), &dropped, content, actor_id@, room_id@, announced, ld));
    assert(xp_award_outcome(&dropped, &awarded, content, actor_id@, ld, lines.views()));
}

/// Adds up the allies' shares of an attack, held within the range of `i32`.
fn sum_ally_contributions(state: &WorldState, content: &ContentPack, allies: &Vec<String>) -> (r: i32)
    requires
        state.wf(),
    ensures
        r as int == allies_total(state, content, allies@.map_values(|s: String| s@), allies.len() as int),
{
    let ghost ids = allies@.map_values(|s: String| s@);
    let mut total: i32 = 0;
    let mut i: usize = 0;
    while i < allies.len()
        invariant
            state.wf(),
            ids == allies@.map_values(|s: String| s@),
            i <= allies.len(),
            total as int == allies_total(state, content, ids, i as int),
        decreases allies.len() - i,
    {
        let c = ally_attack_contribution(state, content, allies[i].as_str());
        assert(ids[i as int] == allies@[i as int]@);
        let s: i64 = total as i64 + c as i64;
        total = if s > i32::MAX as i64 { i32::MAX } else if s < i32::MIN as i64 { i32::MIN } else { s as i32 };
        i = i + 1;
    }
    total
}

/// Announces each ally's share of the attack, in order.
fn narrate_ally_shares(state: &WorldState, content: &ContentPack, allies: &Vec<String>, lines: &mut NarrativeLines)
    requires
        state.wf(),
        content.wf(),
    ensures
        final(lines).views() == old(lines).views() + ally_lines(state, content, allies@.map_values(|s: String| s@), allies.len() as int),
{
    let ghost ids = allies@.map_values(|s: String| s@);
    let mut i: usize = 0;
    assert(old(lines).views() + Seq::<(NarrativeLineKind, Seq<char>)>::empty() =~= old(lines).views());
    while i < allies.len()
        invariant
            state.wf(),
            content.wf(),
            ids == allies@.map_values(|s: String| s@),
            i <= allies.len(),
            lines.views() == old(lines).views() + ally_lines(state, content, ids, i as int),
        decreases allies.len() - i,
    {
        let ally_id = allies[i].as_str();
        assert(ids[i as int] == ally_id@);
        let share = ally_attack_contribution(state, content, ally_id);
        let damage = int_string(share);
        let ally_name = actor_display_name(content, ally_id);
        let replacements: [(&str, &str); 2] = [("actor", ally_name.as_str()), ("damage", damage.as_str())];
        assert(pair_views(replacements@) =~= seq![("actor"@, display_name(content, ids[i as int])),
            ("damage"@, int_text(spec_ally_contribution(state, content, ids[i as int])))]);
        let ghost before = lines.views();
        narrate_message(lines, content, "combat.ally_joins_attack", &replacements);
        assert(lines.views() =~= old(lines).views() + ally_lines(state, content, ids, i as int + 1));
        i = i + 1;
    }
}

/// Wakes a target that was neither allied nor hostile: it turns hostile, is
/// due to strike after its interval, and the waking is announced.
fn wake_target(state: &mut WorldState, content: &ContentPack, target_actor_id: &str, lines: &mut NarrativeLines)
    requires
        old(state).wf(),
        content.wf(),
        old(state).current_time_minutes + strike_interval(content, target_actor_id@) <= u32::MAX,
    ensures
        final(state).wf(),
        woken(old(state), final(state), content, target_actor_id@, old(lines).views(), final(lines).views()),
{
    let mut relationship = state.relationship(target_actor_id);
    if relationship.stance != ActorStance::Allied && relationship.stance != ActorStance::Hostile {
        relationship.stance = ActorStance::Hostile;
        state.set_relationship(target_actor_id, relationship);
        let interval = attack_interval(content, target_actor_id);
        let due = state.current_time_minutes + interval;
        state.next_hostile_strike_at.insert_str(target_actor_id, due);
        let name = actor_display_name(content, target_actor_id);
        let replacements: [(&str, &str); 1] = [("actor", name.as_str())];
        assert(pair_views(replacements@) =~= seq![("actor"@, display_name(content, target_actor_id@))]);
        narrate_message(lines, content, "combat.actor_wakes_hostile", &replacements);
    }
}

/// The player's attack on a target in a room. An allied target is never
/// attacked. Otherwise the player's attack (less the target's defence, at
/// least the pack's minimum) and the shares of the allies who join in are
/// dealt, less the target's resistance, to its health; a target whose health
/// is gone is defeated, and one that was neither allied nor hostile turns
/// hostile (see `attack_outcome`).
pub fn apply_attack_target(state: &mut WorldState, content: &ContentPack, target_actor_id: &str, room_id: &str,
    lines: &mut NarrativeLines)
    requires
        old(state).wf(),
        content.wf(),
        old(state).spec_relationship(target_actor_id@).stance != ActorStance::Allied ==> {
            &&& attack_fits(old(state), content, target_actor_id@, room_id@)
            &&& level_tables_bounded(content)
            &&& old(state).relationships.key_seq().len() < u32::MAX
        },
    ensures
        final(state).wf(),
        old(state).spec_relationship(target_actor_id@).stance == ActorStance::Allied
            ==> *final(state) == *old(state) && final(lines).views() == old(lines).views(),
        old(state).spec_relationship(target_actor_id@).stance != ActorStance::Allied
            ==> attack_outcome(old(state), final(state), content, target_actor_id@, room_id@, old(lines).views(), final(lines).views()),
{
    if state.stance(target_actor_id) == ActorStance::Allied {
        return;
    }
    let combat = &content.settings.combat;
    let target_name = actor_display_name(content, target_actor_id);
    let player_attack = state.effective_actor_stat(content, combat.player_actor_id.as_str(), combat.attack_stat_id.as_str());
    let target_defense = state.effective_actor_stat(content, target_actor_id, combat.defense_stat_id.as_str());
    let d = player_attack - target_defense;
    let base_damage = if d > combat.minimum_damage { d } else { combat.minimum_damage };
    let allied_participants = participating_allies(state, content, room_id);
    let ally_damage = sum_ally_contributions(state, content, &allied_participants);
    let raw_damage = base_damage + ally_damage;
    let kind = attack_kind(content, combat.player_actor_id.as_str());
    let total_damage = resisted_damage(content, target_actor_id, kind.as_str(), raw_damage);
    if raw_damage > 0 && total_damage == 0 {
        let replacements: [(&str, &str); 2] = [("actor", target_name.as_str()), ("kind", kind.as_str())];
        assert(pair_views(replacements@) =~= seq![("actor"@, display_name(content, target_actor_id@)), ("kind"@, kind@)]);
        narrate_message(lines, content, "combat.no_effect", &replacements);
        wake_target(state, content, target_actor_id, lines);
        return;
    }
    let ghost start = *state;
    let _ = state.adjust_actor_stat(target_actor_id, combat.health_stat_id.as_str(), -total_damage);
    let ghost hit = *state;
    assert(stat_adjusted(&start, &hit, target_actor_id@, combat.health_stat_id@, -total_damage));
    let remaining = state.actor_stat(target_actor_id, combat.health_stat_id.as_str());
    let damage_text = int_string(total_damage);
    let remaining_text = int_string(remaining);
    let replacements: [(&str, &str); 3] = [("actor", target_name.as_str()), ("damage", damage_text.as_str()),
        ("remaining", remaining_text.as_str())];
    assert(pair_views(replacements@) =~= seq![("actor"@, display_name(content, target_actor_id@)),
        ("damage"@, int_text(total_damage as int)), ("remaining"@, int_text(remaining as int))]);
    let ghost lines0 = lines.views();
    narrate_message(lines, content, "combat.attack_hit", &replacements);
    narrate_ally_shares(state, content, &allied_participants, lines);
    if remaining <= 0 {
        defeat_actor(state, content, target_actor_id, room_id, lines);
        return;
    }
    wake_target(state, content, target_actor_id, lines);
}

/// Whether a hostile actor strikes the player now: the game is active, the
/// actor is hostile and has health left, its next strike is due, and it is
/// in the player's room.
pub open spec fn strike_due(state: &WorldState, content: &ContentPack, actor_id: Seq<char>) -> bool {
    let c = content.settings.combat;
    let home = if content.has_actor(actor_id) { content.spec_actor(actor_id).room_id@ } else { Seq::empty() };
    let due = if state.next_hostile_strike_at@.dom().contains(actor_id) { state.next_hostile_strike_at@[actor_id] as int } else { 0 };
    &&& state.phase == GamePhase::Active
    &&& state.spec_relationship(actor_id).stance == ActorStance::Hostile
    &&& state.spec_actor_stat(actor_id, c.health_stat_id@) > 0
    &&& state.current_time_minutes >= due
    &&& state.spec_actor_room_id(actor_id, home) == state.current_room_id@
}

/// The damage of a hostile actor's strike: its attack against the player's
/// defence, never below the pack's minimum damage.
pub open spec fn strike_damage(state: &WorldState, content: &ContentPack, actor_id: Seq<char>) -> int {
    let c = content.settings.combat;
    let d = state.spec_actor_stat(actor_id, c.attack_stat_id@)
        - state.spec_effective_actor_stat(content, c.player_actor_id@, c.defense_stat_id@);
    if d > c.minimum_damage { d } else { c.minimum_damage as int }
}

/// The player's stored health after a strike: moved within its bounds when
/// the stat is declared.
pub open spec fn health_after_strike(state: &WorldState, content: &ContentPack, actor_id: Seq<char>) -> int {
    let c = content.settings.combat;
    let h = c.health_stat_id@;
    let p = c.player_actor_id@;
    if state.actor_stat_defs@.dom().contains(h) {
        state.actor_stat_defs@[h].spec_clamp(state.spec_actor_stat(p, h) - strike_damage(state, content, actor_id))
    } else {
        state.spec_actor_stat(p, h)
    }
}

/// Whether every number a strike computes fits its machine type: the
/// player's defence and health with equipment bonuses, the damage, the
/// health after the blow, and the time of the next strike.
pub open spec fn strike_fits(state: &WorldState, content: &ContentPack, actor_id: Seq<char>) -> bool {
    let c = content.settings.combat;
    let p = c.player_actor_id@;
    let h = c.health_stat_id@;
    let defense = state.spec_effective_actor_stat(content, p, c.defense_stat_id@);
    &&& forall|n: int| 0 <= n <= state.equipped_ids().len() ==> i32::MIN <= #[trigger] bonus_sum(content, state.equipped_ids(), c.defense_stat_id@, n) <= i32::MAX
    &&& forall|n: int| 0 <= n <= state.equipped_ids().len() ==> i32::MIN <= #[trigger] bonus_sum(content, state.equipped_ids(), h, n) <= i32::MAX
    &&& i32::MIN <= defense <= i32::MAX
    &&& i32::MIN <= state.spec_actor_stat(actor_id, c.attack_stat_id@) - defense <= i32::MAX
    &&& strike_damage(state, content, actor_id) > i32::MIN
    &&& state.actor_stat_defs@.dom().contains(h) ==> i32::MIN <= state.spec_actor_stat(p, h) - strike_damage(state, content, actor_id) <= i32::MAX
    &&& i32::MIN <= health_after_strike(state, content, actor_id) + state.spec_equipped_bonus(content, h) <= i32::MAX
    &&& state.current_time_minutes + strike_interval(content, actor_id) <= u32::MAX
}

/// Whether `struck` is `hit` with the actor's next strike set one interval
/// after the current time.
pub open spec fn strike_recorded(hit: &WorldState, struck: &WorldState, content: &ContentPack, actor_id: Seq<char>) -> bool {
    &&& *struck == (WorldState { next_hostile_strike_at: struck.next_hostile_strike_at, ..*hit })
    &&& struck.next_hostile_strike_at@ == hit.next_hostile_strike_at@.insert(actor_id,
        (hit.current_time_minutes + strike_interval(content, actor_id)) as u32)
}

/// What a due strike does: the damage is taken from the player's health, the
/// strike is told with the damage and the player's remaining health, the
/// actor's next strike is set one interval ahead, and the game ends with the
/// pack's defeat text when the player's health is gone.
pub open spec fn strike_outcome(before: &WorldState, after: &WorldState, content: &ContentPack, actor_id: Seq<char>,
    lb: Seq<(NarrativeLineKind, Seq<char>)>, la: Seq<(NarrativeLineKind, Seq<char>)>) -> bool {
    let c = content.settings.combat;
    let p = c.player_actor_id@;
    let h = c.health_stat_id@;
    let damage = strike_damage(before, content, actor_id);
    exists|hit: WorldState, struck: WorldState| #[trigger] stat_adjusted(before, &hit, p, h, -damage)
        && #[trigger] strike_recorded(&hit, &struck, content, actor_id) && {
        let remaining = hit.spec_effective_actor_stat(content, p, h);
        let told = lb + narrated(content, "combat.hostile_strike"@,
            seq![("actor"@, display_name(content, actor_id)), ("damage"@, int_text(damage)), ("remaining"@, int_text(remaining))]);
        if remaining <= 0 {
            &&& *after == (WorldState { phase: GamePhase::GameEnded, ..struck })
            &&& la == told + seq![(NarrativeLineKind::Narration, story_text(c.player_defeat_text@, &struck))]
        } else {
            *after == struck && la == told
        }
    }
}

/// A hostile actor's strike at the player, when one is due (see
/// `strike_due`); otherwise nothing happens.
pub fn handle_hostile_strike(state: &mut WorldState, content: &ContentPack, actor_id: &str, lines: &mut NarrativeLines)
    requires
        old(state).wf(),
        content.wf(),
        strike_due(old(state), content, actor_id@) ==> strike_fits(old(state), content, actor_id@),
    ensures
        final(state).wf(),
        !strike_due(old(state), content, actor_id@) ==> *final(state) == *old(state) && final(lines).views() == old(lines).views(),
        strike_due(old(state), content, actor_id@)
            ==> strike_outcome(old(state), final(state), content, actor_id@, old(lines).views(), final(lines).views()),
{
    let combat = &content.settings.combat;
    if state.phase != GamePhase::Active || state.stance(actor_id) != ActorStance::Hostile
        || state.actor_stat(actor_id, combat.health_stat_id.as_str()) <= 0 {
        return;
    }
    let due = match state.next_hostile_strike_at.get_str(actor_id) {
        Some(t) => *t,
        None => 0,
    };
    if state.current_time_minutes < due {
        return;
    }
    let home = match content.actor(actor_id) {
        Some(actor) => string_of(actor.room_id.as_str()),
        None => String::new(),
    };
    if !crate::text::str_eq(state.actor_room_id(actor_id, home.as_str()), state.current_room_id.as_str()) {
        return;
    }
    let defense = state.effective_actor_stat(content, combat.player_actor_id.as_str(), combat.defense_stat_id.as_str());
    let d = state.actor_stat(actor_id, combat.attack_stat_id.as_str()) - defense;
    let damage = if d > combat.minimum_damage { d } else { combat.minimum_damage };
    let ghost start = *state;
    let _ = state.adjust_actor_stat(combat.player_actor_id.as_str(), combat.health_stat_id.as_str(), -damage);
    let ghost hit = *state;
    assert(stat_adjusted(&start, &hit, combat.player_actor_id@, combat.health_stat_id@, -damage));
    assert(hit.equipped_ids() == start.equipped_ids());
    let remaining = state.effective_actor_stat(content, combat.player_actor_id.as_str(), combat.health_stat_id.as_str());
    let name = actor_display_name(content, actor_id);
    let damage_text = int_string(damage);
    let remaining_text = int_string(remaining);
    let replacements: [(&str, &str); 3] = [("actor", name.as_str()), ("damage", damage_text.as_str()),
        ("remaining", remaining_text.as_str())];
    assert(pair_views(replacements@) =~= seq![("actor"@, display_name(content, actor_id@)),
        ("damage"@, int_text(damage as int)), ("remaining"@, int_text(remaining as int))]);
    narrate_message(lines, content, "combat.hostile_strike", &replacements);
    let interval = attack_interval(content, actor_id);
    let next = state.current_time_minutes + interval;
    state.next_hostile_strike_at.insert_str(actor_id, next);
    let ghost struck = *state;
    let ghost told = lines.views();
    assert(strike_recorded(&hit, &struck, content, actor_id@));
    defeat_player_if_dead(state, content, lines);
    proof {
        if remaining <= 0 {
            assert(lines.views() =~= told + seq![(NarrativeLineKind::Narration,
                story_text(content.settings.combat.player_defeat_text@, &struck))]);
        } else {
            assert(lines.views() =~= told);
        }
    }
}

/// The damage of the player's attack: the player's blow is its attack less
/// the target's defence, but never below the pack's minimum; the allies'
/// shares add up one by one (held within `i32`), with nothing added when no
/// ally joins; and the damage that lands is the raw attack less the target's
/// resistance to the player's kind of attack, never below zero and never
/// more than the raw attack plus a negative resistance. A hostile strike is
/// the striker's attack less the player's defence, never below the minimum.
pub proof fn law_attack_damage(state: &WorldState, content: &ContentPack, target: Seq<char>, room: Seq<char>,
    allies: Seq<Seq<char>>, striker: Seq<char>)
    ensures
        ({
            let c = content.settings.combat;
            let attack = state.spec_effective_actor_stat(content, c.player_actor_id@, c.attack_stat_id@);
            let defense = state.spec_effective_actor_stat(content, target, c.defense_stat_id@);
            let base = attack_base(state, content, target);
            let raw = attack_raw(state, content, target, room);
            let resist = resistance_of(content, target, attack_kind_of(content, c.player_actor_id@));
            let total = attack_total(state, content, target, room);
            &&& base >= c.minimum_damage
            &&& base >= attack - defense
            &&& (base == attack - defense || base == c.minimum_damage)
            &&& allies_total(state, content, allies, 0) == 0
            &&& allies.len() > 0 && allies_total(state, content, allies.drop_last(), allies.len() - 1)
                + spec_ally_contribution(state, content, allies.last()) <= i32::MAX
                && allies_total(state, content, allies.drop_last(), allies.len() - 1)
                + spec_ally_contribution(state, content, allies.last()) >= i32::MIN
                ==> allies_total(state, content, allies, allies.len() as int)
                    == allies_total(state, content, allies.drop_last(), allies.len() - 1) + spec_ally_contribution(state, content, allies.last())
            &&& total >= 0
            &&& total >= raw - resist
            &&& (total == raw - resist || total == 0)
            &&& strike_damage(state, content, striker) >= c.minimum_damage
            &&& strike_damage(state, content, striker) >= state.spec_actor_stat(striker, c.attack_stat_id@)
                - state.spec_effective_actor_stat(content, c.player_actor_id@, c.defense_stat_id@)
        }),
{
    if allies.len() > 0 {
        lemma_allies_total_prefix(state, content, allies, allies.drop_last(), allies.len() - 1);
    }
}

proof fn lemma_allies_total_prefix(state: &WorldState, content: &ContentPack, allies: Seq<Seq<char>>, shorter: Seq<Seq<char>>, n: int)
    requires
        0 <= n <= shorter.len(),
        n <= allies.len(),
        forall|i: int| 0 <= i < n ==> shorter[i] == allies[i],
    ensures
        allies_total(state, content, shorter, n) == allies_total(state, content, allies, n),
    decreases n,
{
    if n > 0 {
        lemma_allies_total_prefix(state, content, allies, shorter, n - 1);
    }
}

} // verus!

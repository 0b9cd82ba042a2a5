use vstd::prelude::*;
use super::{conv_key, conversation_key_chars, nested_wf, WorldState};
use super::inventory::{consumable_key, consumable_key_chars};
use crate::content::{ActorDefinition, ContentPack, StatDefinition};
use crate::smap::StrMap;
use crate::text::string_from_chars;

verus! {

/// An actor's starting stats: every declared stat at its default, replaced
/// by the actor's authored value (held within bounds) where it has one.
pub open spec fn actor_seed(actor: ActorDefinition, defs: Map<Seq<char>, StatDefinition>) -> Map<Seq<char>, i32> {
    Map::new(|k: Seq<char>| defs.dom().contains(k), |k: Seq<char>|
        if actor.initial_stats@.dom().contains(k) {
            defs[k].spec_clamp(actor.initial_stats@[k] as int) as i32
        } else {
            defs[k].default
        })
}

/// Starting stats of the first `n` actors; a later actor with the same id
/// replaces an earlier one.
pub open spec fn seed_actor_stats_upto(actors: Seq<ActorDefinition>, defs: Map<Seq<char>, StatDefinition>, n: int)
    -> Map<Seq<char>, Map<Seq<char>, i32>>
    decreases n,
{
    if n <= 0 {
        Map::empty()
    } else {
        seed_actor_stats_upto(actors, defs, n - 1).insert(actors[n - 1].id@, actor_seed(actors[n - 1], defs))
    }
}

/// The view of a map of maps.
pub open spec fn nested_view<V>(m: StrMap<StrMap<V>>) -> Map<Seq<char>, Map<Seq<char>, V>> {
    m@.map_values(|inner: StrMap<V>| inner@)
}

proof fn lemma_clamp_fits(d: StatDefinition, v: i32)
    ensures
        i32::MIN <= d.spec_clamp(v as int) <= i32::MAX,
{
}

fn seed_one_actor(actor: &ActorDefinition, defs: &StrMap<StatDefinition>) -> (r: StrMap<i32>)
    requires
        actor.wf(),
        defs.wf(),
    ensures
        r.wf(),
        r@ == actor_seed(*actor, defs@),
{
    let mut stats: StrMap<i32> = StrMap::new();
    let n = defs.len();
    proof { defs.lemma_contents(); }
    let mut i: usize = 0;
    while i < n
        invariant
            defs.wf(),
            stats.wf(),
            n == defs.key_seq().len(),
            i <= n,
            stats@ == Map::new(|k: Seq<char>| exists|j: int| 0 <= j < i && defs.key_seq()[j] == k, |k: Seq<char>| defs@[k].default),
        decreases n - i,
    {
        proof { defs.lemma_contents(); }
        let k = defs.key_at(i).clone();
        let d = defs.value_at(i).default;
        stats.insert(k, d);
        assert(stats@ =~= Map::new(|k: Seq<char>| exists|j: int| 0 <= j < i + 1 && defs.key_seq()[j] == k, |k: Seq<char>| defs@[k].default));
        i = i + 1;
    }
    proof {
        defs.lemma_contents();
        assert(stats@ =~= Map::new(|k: Seq<char>| defs@.dom().contains(k), |k: Seq<char>| defs@[k].default));
    }
    let m = actor.initial_stats.len();
    proof { actor.initial_stats.lemma_contents(); }
    let mut j: usize = 0;
    while j < m
        invariant
            defs.wf(),
            actor.wf(),
            stats.wf(),
            m == actor.initial_stats.key_seq().len(),
            j <= m,
            stats@ == Map::new(|k: Seq<char>| defs@.dom().contains(k), |k: Seq<char>|
                if (exists|q: int| 0 <= q < j && actor.initial_stats.key_seq()[q] == k) {
                    defs@[k].spec_clamp(actor.initial_stats@[k] as int) as i32
                } else {
                    defs@[k].default
                }),
        decreases m - j,
    {
        proof { actor.initial_stats.lemma_contents(); }
        let k = actor.initial_stats.key_at(j);
        let v = *actor.initial_stats.value_at(j);
        match defs.get(k) {
            Some(d) => {
                proof { lemma_clamp_fits(*d, v); }
                stats.insert(k.clone(), d.clamp(v));
            },
            None => {},
        }
        assert(stats@ =~= Map::new(|kk: Seq<char>| defs@.dom().contains(kk), |kk: Seq<char>|
                if (exists|q: int| 0 <= q < j + 1 && actor.initial_stats.key_seq()[q] == kk) {
                    defs@[kk].spec_clamp(actor.initial_stats@[kk] as int) as i32
                } else {
                    defs@[kk].default
                }));
        j = j + 1;
    }
    proof {
        actor.initial_stats.lemma_contents();
        assert(stats@ =~= actor_seed(*actor, defs@));
    }
    stats
}

/// Every actor's starting stats, keyed by actor id.
pub fn seeded_actor_stats(content: &ContentPack, actor_stat_defs: &StrMap<StatDefinition>) -> (r: StrMap<StrMap<i32>>)
    requires
        content.wf(),
        actor_stat_defs.wf(),
    ensures
        nested_wf(r),
        nested_view(r) == seed_actor_stats_upto(content.actors@, actor_stat_defs@, content.actors.len() as int),
{
    let mut r: StrMap<StrMap<i32>> = StrMap::new();
    let mut i: usize = 0;
    while i < content.actors.len()
        invariant
            content.wf(),
            actor_stat_defs.wf(),
            nested_wf(r),
            i <= content.actors.len(),
            nested_view(r) == seed_actor_stats_upto(content.actors@, actor_stat_defs@, i as int),
        decreases content.actors.len() - i,
    {
        let actor = &content.actors[i];
        assert(content.actors@[i as int].wf());
        let stats = seed_one_actor(actor, actor_stat_defs);
        let key = crate::text::chars_of(actor.id.as_str());
        r.insert(key, stats);
        assert(nested_view(r) =~= seed_actor_stats_upto(content.actors@, actor_stat_defs@, i + 1));
        i = i + 1;
    }
    r
}

/// Every feature consumable's initial stock, keyed `room::feature::consumable`.
pub fn seeded_feature_consumable_stock(content: &ContentPack) -> (r: StrMap<u32>)
    ensures
        r.wf(),
        forall|k: Seq<char>| #[trigger] r@.dom().contains(k) ==> exists|a: int, b: int, c: int|
            0 <= a < content.rooms.len() && 0 <= b < content.rooms@[a].features.len()
            && 0 <= c < content.rooms@[a].features@[b].consumables.len()
            && k == consumable_key(content.rooms@[a].id@, content.rooms@[a].features@[b].id@, content.rooms@[a].features@[b].consumables@[c].id@),
        forall|a: int, b: int, c: int|
            0 <= a < content.rooms.len() && 0 <= b < content.rooms@[a].features.len()
            && 0 <= c < content.rooms@[a].features@[b].consumables.len()
            ==> #[trigger] r@.dom().contains(consumable_key(content.rooms@[a].id@, content.rooms@[a].features@[b].id@, content.rooms@[a].features@[b].consumables@[c].id@)),
{
    let mut r: StrMap<u32> = StrMap::new();
    let mut a: usize = 0;
    while a < content.rooms.len()
        invariant
            r.wf(),
            a <= content.rooms.len(),
            forall|k: Seq<char>| #[trigger] r@.dom().contains(k) ==> exists|x: int, y: int, z: int|
                0 <= x < content.rooms.len() && 0 <= y < content.rooms@[x].features.len()
                && 0 <= z < content.rooms@[x].features@[y].consumables.len()
                && k == consumable_key(content.rooms@[x].id@, content.rooms@[x].features@[y].id@, content.rooms@[x].features@[y].consumables@[z].id@),
            forall|x: int, y: int, z: int|
                0 <= x < a && 0 <= y < content.rooms@[x].features.len()
                && 0 <= z < content.rooms@[x].features@[y].consumables.len()
                ==> #[trigger] r@.dom().contains(consumable_key(content.rooms@[x].id@, content.rooms@[x].features@[y].id@, content.rooms@[x].features@[y].consumables@[z].id@)),
        decreases content.rooms.len() - a,
    {
        let room = &content.rooms[a];
        let mut b: usize = 0;
        while b < room.features.len()
            invariant
                r.wf(),
                a < content.rooms.len(),
                *room == content.rooms@[a as int],
                b <= room.features.len(),
                forall|k: Seq<char>| #[trigger] r@.dom().contains(k) ==> exists|x: int, y: int, z: int|
                    0 <= x < content.rooms.len() && 0 <= y < content.rooms@[x].features.len()
                    && 0 <= z < content.rooms@[x].features@[y].consumables.len()
                    && k == consumable_key(content.rooms@[x].id@, content.rooms@[x].features@[y].id@, content.rooms@[x].features@[y].consumables@[z].id@),
                forall|x: int, y: int, z: int|
                    ((0 <= x < a && 0 <= y < content.rooms@[x].features.len()) || (x == a && 0 <= y < b))
                    && 0 <= z < content.rooms@[x].features@[y].consumables.len()
                    ==> #[trigger] r@.dom().contains(consumable_key(content.rooms@[x].id@, content.rooms@[x].features@[y].id@, content.rooms@[x].features@[y].consumables@[z].id@)),
            decreases room.features.len() - b,
        {
            let feature = &room.features[b];
            let mut c: usize = 0;
            while c < feature.consumables.len()
                invariant
                    r.wf(),
                    a < content.rooms.len(),
                    b < room.features.len(),
                    *room == content.rooms@[a as int],
                    *feature == room.features@[b as int],
                    c <= feature.consumables.len(),
                    forall|k: Seq<char>| #[trigger] r@.dom().contains(k) ==> exists|x: int, y: int, z: int|
                        0 <= x < content.rooms.len() && 0 <= y < content.rooms@[x].features.len()
                        && 0 <= z < content.rooms@[x].features@[y].consumables.len()
                        && k == consumable_key(content.rooms@[x].id@, content.rooms@[x].features@[y].id@, content.rooms@[x].features@[y].consumables@[z].id@),
                    forall|x: int, y: int, z: int|
                        (((0 <= x < a && 0 <= y < content.rooms@[x].features.len()) || (x == a && 0 <= y < b))
                        && 0 <= z < content.rooms@[x].features@[y].consumables.len()) || (x == a && y == b && 0 <= z < c)
                        ==> #[trigger] r@.dom().contains(consumable_key(content.rooms@[x].id@, content.rooms@[x].features@[y].id@, content.rooms@[x].features@[y].consumables@[z].id@)),
                decreases feature.consumables.len() - c,
            {
                let consumable = &feature.consumables[c];
                let key = consumable_key_chars(room.id.as_str(), feature.id.as_str(), consumable.id.as_str());
                r.insert(key, consumable.initial_stock);
                c = c + 1;
            }
            b = b + 1;
        }
        a = a + 1;
    }
    r
}

/// Whether `k` is the key of a pair some actor authors starting stats for.
pub open spec fn is_authored_pair(content: &ContentPack, k: Seq<char>) -> bool {
    exists|a: int, o: Seq<char>| 0 <= a < content.actors.len()
        && #[trigger] content.actors@[a].initial_pair_stats@.dom().contains(o)
        && k == conv_key(content.actors@[a].id@, o)
}

/// Starting pair stats of the authored pairs, each held within its
/// declaration's bounds; stats without a declaration are skipped.
pub fn seeded_pair_stats(content: &ContentPack, pair_stat_defs: &StrMap<StatDefinition>) -> (r: StrMap<StrMap<i32>>)
    requires
        content.wf(),
        pair_stat_defs.wf(),
    ensures
        nested_wf(r),
        forall|k: Seq<char>| #[trigger] r@.dom().contains(k) <==> is_authored_pair(content, k),
        forall|k: Seq<char>, s: Seq<char>| r@.dom().contains(k) && #[trigger] r@[k]@.dom().contains(s) ==> pair_stat_defs@.dom().contains(s),
{
    let mut r: StrMap<StrMap<i32>> = StrMap::new();
    let mut a: usize = 0;
    while a < content.actors.len()
        invariant
            content.wf(),
            pair_stat_defs.wf(),
            nested_wf(r),
            a <= content.actors.len(),
            forall|k: Seq<char>| #[trigger] r@.dom().contains(k) <==> exists|x: int, o: Seq<char>| 0 <= x < a
                && #[trigger] content.actors@[x].initial_pair_stats@.dom().contains(o) && k == conv_key(content.actors@[x].id@, o),
            forall|k: Seq<char>, s: Seq<char>| r@.dom().contains(k) && #[trigger] r@[k]@.dom().contains(s) ==> pair_stat_defs@.dom().contains(s),
        decreases content.actors.len() - a,
    {
        let actor = &content.actors[a];
        assert(content.actors@[a as int].wf());
        let n = actor.initial_pair_stats.len();
        proof { actor.initial_pair_stats.lemma_contents(); }
        let mut j: usize = 0;
        while j < n
            invariant
                content.wf(),
                pair_stat_defs.wf(),
                nested_wf(r),
                a < content.actors.len(),
                *actor == content.actors@[a as int],
                actor.wf(),
                n == actor.initial_pair_stats.key_seq().len(),
                j <= n,
                forall|k: Seq<char>| #[trigger] r@.dom().contains(k) <==> (exists|x: int, o: Seq<char>| 0 <= x < a
                    && #[trigger] content.actors@[x].initial_pair_stats@.dom().contains(o) && k == conv_key(content.actors@[x].id@, o))
                    || (exists|q: int| 0 <= q < j && k == conv_key(actor.id@, actor.initial_pair_stats.key_seq()[q])),
                forall|k: Seq<char>, s: Seq<char>| r@.dom().contains(k) && #[trigger] r@[k]@.dom().contains(s) ==> pair_stat_defs@.dom().contains(s),
            decreases n - j,
        {
            proof { actor.initial_pair_stats.lemma_contents(); }
            let other = actor.initial_pair_stats.key_at(j);
            let authored = actor.initial_pair_stats.value_at(j);
            assert(actor.initial_pair_stats@.dom().contains(actor.initial_pair_stats.key_seq()[j as int]));
            assert(authored.wf());
            let other_s = string_from_chars(other);
            let key = conversation_key_chars(actor.id.as_str(), other_s.as_str());
            let mut entry = match r.remove(&key) {
                Some(m) => m,
                None => StrMap::new(),
            };
            let m = authored.len();
            proof { authored.lemma_contents(); }
            let mut q: usize = 0;
            while q < m
                invariant
                    authored.wf(),
                    pair_stat_defs.wf(),
                    entry.wf(),
                    m == authored.key_seq().len(),
                    q <= m,
                    forall|s: Seq<char>| #[trigger] entry@.dom().contains(s) ==> pair_stat_defs@.dom().contains(s),
                decreases m - q,
            {
                let stat = authored.key_at(q);
                let v = *authored.value_at(q);
                match pair_stat_defs.get(stat) {
                    Some(d) => {
                        proof { lemma_clamp_fits(*d, v); }
                        entry.insert(stat.clone(), d.clamp(v));
                    },
                    None => {},
                }
                q = q + 1;
            }
            r.insert(key, entry);
            proof {
                assert(actor.initial_pair_stats@.dom().contains(actor.initial_pair_stats.key_seq()[j as int]));
                assert forall|k: Seq<char>| #[trigger] r@.dom().contains(k) <==> (exists|x: int, o: Seq<char>| 0 <= x < a
                    && #[trigger] content.actors@[x].initial_pair_stats@.dom().contains(o) && k == conv_key(content.actors@[x].id@, o))
                    || (exists|qq: int| 0 <= qq < j + 1 && k == conv_key(actor.id@, actor.initial_pair_stats.key_seq()[qq])) by {
                    if k == conv_key(actor.id@, actor.initial_pair_stats.key_seq()[j as int]) {
                    }
                }
            }
            j = j + 1;
        }
        proof {
            actor.initial_pair_stats.lemma_contents();
            assert forall|k: Seq<char>| #[trigger] r@.dom().contains(k) <==> exists|x: int, o: Seq<char>| 0 <= x < a + 1
                && #[trigger] content.actors@[x].initial_pair_stats@.dom().contains(o) && k == conv_key(content.actors@[x].id@, o) by {
                if r@.dom().contains(k) {
                    if exists|qq: int| 0 <= qq < n && k == conv_key(actor.id@, actor.initial_pair_stats.key_seq()[qq]) {
                        let qq = choose|qq: int| 0 <= qq < n && k == conv_key(actor.id@, actor.initial_pair_stats.key_seq()[qq]);
                        assert(content.actors@[a as int].initial_pair_stats@.dom().contains(actor.initial_pair_stats.key_seq()[qq]));
                    }
                }
                if exists|x: int, o: Seq<char>| 0 <= x < a + 1
                    && #[trigger] content.actors@[x].initial_pair_stats@.dom().contains(o) && k == conv_key(content.actors@[x].id@, o) {
                    let (x, o) = choose|x: int, o: Seq<char>| 0 <= x < a + 1
                        && #[trigger] content.actors@[x].initial_pair_stats@.dom().contains(o) && k == conv_key(content.actors@[x].id@, o);
                    if x == a {
                        let qq = choose|qq: int| 0 <= qq < n && actor.initial_pair_stats.key_seq()[qq] == o;
                    }
                }
            }
        }
        a = a + 1;
    }
    r
}

} // verus!

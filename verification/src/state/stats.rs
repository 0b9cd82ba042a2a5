use vstd::prelude::*;
use super::{conv_key, conversation_key_chars, nested_wf, WorldState};
use super::appointments::remap_story_actor_id;
use crate::content::ContentPack;
use crate::smap::StrMap;
use crate::text::{append_chars, chars_of, string_from_chars, str_eq};

verus! {

/// Sum of the bonuses to `stat` granted by the first `n` equipped items (in
/// slot order); unknown items and items without that bonus add nothing.
pub open spec fn bonus_sum(content: &ContentPack, items: Seq<Seq<char>>, stat: Seq<char>, n: int) -> int
    decreases n,
{
    if n <= 0 {
        0
    } else {
        let item_id = items[n - 1];
        let add = if content.has_item(item_id) && content.spec_item(item_id).stat_bonuses@.dom().contains(stat) {
            content.spec_item(item_id).stat_bonuses@[stat] as int
        } else {
            0
        };
        bonus_sum(content, items, stat, n - 1) + add
    }
}

pub open spec fn unknown_pair_stat_message(key: Seq<char>) -> Seq<char> {
    "unknown pair stat '"@ + key + "'"@
}

pub open spec fn unknown_actor_stat_message(key: Seq<char>) -> Seq<char> {
    "unknown actor stat '"@ + key + "'"@
}

impl WorldState {
    /// Stored value of an actor's stat, falling back to the declared default
    /// and then to zero.
    pub open spec fn spec_actor_stat(&self, actor_id: Seq<char>, stat: Seq<char>) -> int {
        let k = self.spec_remap(actor_id);
        if self.actor_stats@.dom().contains(k) && self.actor_stats@[k]@.dom().contains(stat) {
            self.actor_stats@[k]@[stat] as int
        } else if self.actor_stat_defs@.dom().contains(stat) {
            self.actor_stat_defs@[stat].default as int
        } else {
            0
        }
    }

    pub open spec fn spec_pair_stat(&self, a: Seq<char>, b: Seq<char>, stat: Seq<char>) -> int {
        let k = conv_key(a, b);
        if self.pair_stats@.dom().contains(k) && self.pair_stats@[k]@.dom().contains(stat) {
            self.pair_stats@[k]@[stat] as int
        } else if self.pair_stat_defs@.dom().contains(stat) {
            self.pair_stat_defs@[stat].default as int
        } else {
            0
        }
    }

    /// The item ids held in the equipment slots, in slot order.
    pub open spec fn equipped_ids(&self) -> Seq<Seq<char>> {
        self.equipment.val_seq().map_values(|s: String| s@)
    }

    pub open spec fn spec_equipped_bonus(&self, content: &ContentPack, stat: Seq<char>) -> int {
        bonus_sum(content, self.equipped_ids(), stat, self.equipped_ids().len() as int)
    }

    pub open spec fn spec_effective_actor_stat(&self, content: &ContentPack, actor_id: Seq<char>, stat: Seq<char>) -> int {
        self.spec_actor_stat(actor_id, stat) + if actor_id == content.settings.combat.player_actor_id@ {
            self.spec_equipped_bonus(content, stat)
        } else {
            0
        }
    }

    pub open spec fn spec_actor_level(&self, actor_id: Seq<char>) -> u32 {
        if self.actor_level@.dom().contains(actor_id) && self.actor_level@[actor_id] >= 1 {
            self.actor_level@[actor_id]
        } else {
            1
        }
    }

    pub open spec fn spec_actor_xp(&self, actor_id: Seq<char>) -> u32 {
        if self.actor_xp@.dom().contains(actor_id) { self.actor_xp@[actor_id] } else { 0 }
    }

    pub open spec fn spec_actor_is_defeated(&self, actor_id: Seq<char>, health: Seq<char>) -> bool {
        let k = self.spec_remap(actor_id);
        self.actor_stats@.dom().contains(k) && self.actor_stats@[k]@.dom().contains(health)
            && self.actor_stats@[k]@[health] <= 0
    }

    /// Current level of an actor; absent entries read as level one.
    pub fn actor_level(&self, actor_id: &str) -> (r: u32)
        requires
            self.wf(),
        ensures
            r == self.spec_actor_level(actor_id@),
            r >= 1,
    {
        let level = match self.actor_level.get_str(actor_id) {
            Some(l) => *l,
            None => 1,
        };
        if level < 1 { 1 } else { level }
    }

    /// Experience an actor holds toward its next level.
    pub fn actor_xp(&self, actor_id: &str) -> (r: u32)
        requires
            self.wf(),
        ensures
            r == self.spec_actor_xp(actor_id@),
    {
        match self.actor_xp.get_str(actor_id) {
            Some(x) => *x,
            None => 0,
        }
    }

    /// True only when an explicit entry for the health stat records the actor
    /// at or below zero.
    pub fn actor_is_defeated(&self, actor_id: &str, health_stat_id: &str) -> (r: bool)
        requires
            self.wf(),
        ensures
            r == self.spec_actor_is_defeated(actor_id@, health_stat_id@),
    {
        let id = remap_story_actor_id(self, actor_id);
        match self.actor_stats.get_str(id) {
            Some(stats) => match stats.get_str(health_stat_id) {
                Some(hp) => *hp <= 0,
                None => false,
            },
            None => false,
        }
    }

    pub fn pair_stat(&self, first_participant_id: &str, second_participant_id: &str, stat_key: &str) -> (r: i32)
        requires
            self.wf(),
        ensures
            r as int == self.spec_pair_stat(first_participant_id@, second_participant_id@, stat_key@),
    {
        let key = conversation_key_chars(first_participant_id, second_participant_id);
        match self.pair_stats.get(&key) {
            Some(stats) => match stats.get_str(stat_key) {
                Some(v) => return *v,
                None => {},
            },
            None => {},
        }
        match self.pair_stat_defs.get_str(stat_key) {
            Some(d) => d.default,
            None => 0,
        }
    }

    pub fn actor_stat(&self, actor_id: &str, stat_key: &str) -> (r: i32)
        requires
            self.wf(),
        ensures
            r as int == self.spec_actor_stat(actor_id@, stat_key@),
    {
        let id = remap_story_actor_id(self, actor_id);
        match self.actor_stats.get_str(id) {
            Some(stats) => match stats.get_str(stat_key) {
                Some(v) => return *v,
                None => {},
            },
            None => {},
        }
        match self.actor_stat_defs.get_str(stat_key) {
            Some(d) => d.default,
            None => 0,
        }
    }

    /// The stat floored at zero.
    pub fn actor_stat_u32(&self, actor_id: &str, stat_key: &str) -> (r: u32)
        requires
            self.wf(),
        ensures
            r as int == if self.spec_actor_stat(actor_id@, stat_key@) < 0 { 0 } else { self.spec_actor_stat(actor_id@, stat_key@) },
    {
        let v = self.actor_stat(actor_id, stat_key);
        if v < 0 { 0 } else { v as u32 }
    }

    pub fn pair_stat_u32(&self, first_participant_id: &str, second_participant_id: &str, stat_key: &str) -> (r: u32)
        requires
            self.wf(),
        ensures
            r as int == if self.spec_pair_stat(first_participant_id@, second_participant_id@, stat_key@) < 0 { 0 }
                else { self.spec_pair_stat(first_participant_id@, second_participant_id@, stat_key@) },
    {
        let v = self.pair_stat(first_participant_id, second_participant_id, stat_key);
        if v < 0 { 0 } else { v as u32 }
    }

    /// Sum of the stat bonuses of the player's equipped items.
    pub fn equipped_stat_bonus(&self, content: &ContentPack, stat_key: &str) -> (r: i32)
        requires
            self.wf(),
            content.wf(),
            forall|n: int| 0 <= n <= self.equipped_ids().len() ==> i32::MIN <= #[trigger] bonus_sum(content, self.equipped_ids(), stat_key@, n) <= i32::MAX,
        ensures
            r as int == self.spec_equipped_bonus(content, stat_key@),
    {
        let n = self.equipment.len();
        proof { self.equipment.lemma_contents(); }
        let mut total: i32 = 0;
        let mut i: usize = 0;
        while i < n
            invariant
                self.wf(),
                content.wf(),
                n == self.equipped_ids().len(),
                n == self.equipment.key_seq().len(),
                i <= n,
                total as int == bonus_sum(content, self.equipped_ids(), stat_key@, i as int),
                forall|m: int| 0 <= m <= self.equipped_ids().len() ==> i32::MIN <= #[trigger] bonus_sum(content, self.equipped_ids(), stat_key@, m) <= i32::MAX,
            decreases n - i,
        {
            let item_id = self.equipment.value_at(i);
            assert(item_id@ == self.equipped_ids()[i as int]);
            proof {
                if content.has_item(item_id@) {
                    content.lemma_item_wf(item_id@);
                }
            }
            let add = match content.item(item_id.as_str()) {
                Some(item) => {
                    match item.stat_bonuses.get_str(stat_key) {
                        Some(b) => *b,
                        None => 0,
                    }
                },
                None => 0,
            };
            assert(bonus_sum(content, self.equipped_ids(), stat_key@, i + 1) == total + add);
            assert(i32::MIN <= bonus_sum(content, self.equipped_ids(), stat_key@, i + 1) <= i32::MAX);
            total = total + add;
            i = i + 1;
        }
        total
    }

    /// A stat as gameplay sees it: the stored value plus, for the player, the
    /// bonuses of equipped items.
    pub fn effective_actor_stat(&self, content: &ContentPack, actor_id: &str, stat_key: &str) -> (r: i32)
        requires
            self.wf(),
            content.wf(),
            forall|n: int| 0 <= n <= self.equipped_ids().len() ==> i32::MIN <= #[trigger] bonus_sum(content, self.equipped_ids(), stat_key@, n) <= i32::MAX,
            i32::MIN <= self.spec_effective_actor_stat(content, actor_id@, stat_key@) <= i32::MAX,
        ensures
            r as int == self.spec_effective_actor_stat(content, actor_id@, stat_key@),
    {
        let value = self.actor_stat(actor_id, stat_key);
        if str_eq(actor_id, content.settings.combat.player_actor_id.as_str()) {
            value + self.equipped_stat_bonus(content, stat_key)
        } else {
            value
        }
    }

    /// Item id equipped in a slot, if any.
    pub fn equipped_item(&self, slot_id: &str) -> (r: Option<&str>)
        requires
            self.wf(),
        ensures
            r is Some == self.equipment@.dom().contains(slot_id@),
            r matches Some(i) ==> i@ == self.equipment@[slot_id@]@,
    {
        match self.equipment.get_str(slot_id) {
            Some(item) => Some(item.as_str()),
            None => None,
        }
    }

    /// Every declared actor stat with the actor's current value.
    pub fn actor_stats_snapshot(&self, actor_id: &str) -> (r: StrMap<i32>)
        requires
            self.wf(),
        ensures
            r.wf(),
            r@.dom() == self.actor_stat_defs@.dom(),
            forall|k: Seq<char>| #[trigger] r@.dom().contains(k) ==> r@[k] as int == self.spec_actor_stat(self.spec_remap(actor_id@), k),
    {
        let id = remap_story_actor_id(self, actor_id);
        let n = self.actor_stat_defs.len();
        proof { self.actor_stat_defs.lemma_contents(); }
        let mut r: StrMap<i32> = StrMap::new();
        let mut i: usize = 0;
        while i < n
            invariant
                self.wf(),
                r.wf(),
                id@ == self.spec_remap(actor_id@),
                n == self.actor_stat_defs.key_seq().len(),
                i <= n,
                forall|k: Seq<char>| #[trigger] r@.dom().contains(k) <==> exists|j: int| 0 <= j < i && self.actor_stat_defs.key_seq()[j] == k,
                forall|k: Seq<char>| #[trigger] r@.dom().contains(k) ==> r@[k] as int == self.spec_actor_stat(id@, k),
            decreases n - i,
        {
            let key = self.actor_stat_defs.key_at(i).clone();
            let ks = string_from_chars(&key);
            let v = self.actor_stat(id, ks.as_str());
            r.insert(key, v);
            i = i + 1;
        }
        proof {
            self.actor_stat_defs.lemma_contents();
            assert(r@.dom() =~= self.actor_stat_defs@.dom());
        }
        r
    }

    /// Every declared pair stat with the pair's current value.
    pub fn pair_stats_snapshot(&self, first_participant_id: &str, second_participant_id: &str) -> (r: StrMap<i32>)
        requires
            self.wf(),
        ensures
            r.wf(),
            r@.dom() == self.pair_stat_defs@.dom(),
            forall|k: Seq<char>| #[trigger] r@.dom().contains(k) ==> r@[k] as int == self.spec_pair_stat(first_participant_id@, second_participant_id@, k),
    {
        let n = self.pair_stat_defs.len();
        proof { self.pair_stat_defs.lemma_contents(); }
        let mut r: StrMap<i32> = StrMap::new();
        let mut i: usize = 0;
        while i < n
            invariant
                self.wf(),
                r.wf(),
                n == self.pair_stat_defs.key_seq().len(),
                i <= n,
                forall|k: Seq<char>| #[trigger] r@.dom().contains(k) <==> exists|j: int| 0 <= j < i && self.pair_stat_defs.key_seq()[j] == k,
                forall|k: Seq<char>| #[trigger] r@.dom().contains(k) ==> r@[k] as int == self.spec_pair_stat(first_participant_id@, second_participant_id@, k),
            decreases n - i,
        {
            let key = self.pair_stat_defs.key_at(i).clone();
            let ks = string_from_chars(&key);
            let v = self.pair_stat(first_participant_id, second_participant_id, ks.as_str());
            r.insert(key, v);
            i = i + 1;
        }
        proof {
            self.pair_stat_defs.lemma_contents();
            assert(r@.dom() =~= self.pair_stat_defs@.dom());
        }
        r
    }

    /// Change of each stat recorded at the start of the act, for an actor with
    /// a recorded start.
    pub fn actor_stat_deltas(&self, actor_id: &str) -> (r: Option<StrMap<i32>>)
        requires
            self.wf(),
            self.initial_actor_stats@.dom().contains(self.spec_remap(actor_id@)) ==>
                forall|k: Seq<char>| #[trigger] self.initial_actor_stats@[self.spec_remap(actor_id@)]@.dom().contains(k) ==>
                    i32::MIN <= self.spec_actor_stat(self.spec_remap(actor_id@), k) - self.initial_actor_stats@[self.spec_remap(actor_id@)]@[k] <= i32::MAX,
        ensures
            r is Some == self.initial_actor_stats@.dom().contains(self.spec_remap(actor_id@)),
            r matches Some(m) ==> m.wf() && m@.dom() == self.initial_actor_stats@[self.spec_remap(actor_id@)]@.dom()
                && forall|k: Seq<char>| #[trigger] m@.dom().contains(k) ==> m@[k] as int
                    == self.spec_actor_stat(self.spec_remap(actor_id@), k) - self.initial_actor_stats@[self.spec_remap(actor_id@)]@[k],
    {
        let id = remap_story_actor_id(self, actor_id);
        let initial = match self.initial_actor_stats.get_str(id) {
            Some(m) => m,
            None => return None,
        };
        let n = initial.len();
        proof { initial.lemma_contents(); }
        let mut r: StrMap<i32> = StrMap::new();
        let mut i: usize = 0;
        while i < n
            invariant
                self.wf(),
                initial.wf(),
                r.wf(),
                id@ == self.spec_remap(actor_id@),
                *initial == self.initial_actor_stats@[id@],
                forall|k: Seq<char>| #[trigger] initial@.dom().contains(k) ==> i32::MIN <= self.spec_actor_stat(id@, k) - initial@[k] <= i32::MAX,
                n == initial.key_seq().len(),
                i <= n,
                forall|k: Seq<char>| #[trigger] r@.dom().contains(k) <==> exists|j: int| 0 <= j < i && initial.key_seq()[j] == k,
                forall|k: Seq<char>| #[trigger] r@.dom().contains(k) ==> r@[k] as int == self.spec_actor_stat(id@, k) - initial@[k],
            decreases n - i,
        {
            proof { initial.lemma_contents(); }
            let key = initial.key_at(i).clone();
            let init = *initial.value_at(i);
            let ks = string_from_chars(&key);
            let current = self.actor_stat(id, ks.as_str());
            assert(initial@.dom().contains(key@));
            r.insert(key, current - init);
            i = i + 1;
        }
        proof {
            initial.lemma_contents();
            assert(r@.dom() =~= initial@.dom());
        }
        Some(r)
    }

    /// Change of each pair stat recorded at the start of the act, for a pair
    /// with a recorded start.
    pub fn pair_stat_deltas(&self, first_id: &str, second_id: &str) -> (r: Option<StrMap<i32>>)
        requires
            self.wf(),
            self.initial_pair_stats@.dom().contains(conv_key(first_id@, second_id@)) ==>
                forall|k: Seq<char>| #[trigger] self.initial_pair_stats@[conv_key(first_id@, second_id@)]@.dom().contains(k) ==>
                    i32::MIN <= self.spec_pair_stat(first_id@, second_id@, k) - self.initial_pair_stats@[conv_key(first_id@, second_id@)]@[k] <= i32::MAX,
        ensures
            r is Some == self.initial_pair_stats@.dom().contains(conv_key(first_id@, second_id@)),
            r matches Some(m) ==> m.wf() && m@.dom() == self.initial_pair_stats@[conv_key(first_id@, second_id@)]@.dom()
                && forall|k: Seq<char>| #[trigger] m@.dom().contains(k) ==> m@[k] as int
                    == self.spec_pair_stat(first_id@, second_id@, k) - self.initial_pair_stats@[conv_key(first_id@, second_id@)]@[k],
    {
        let key = conversation_key_chars(first_id, second_id);
        let initial = match self.initial_pair_stats.get(&key) {
            Some(m) => m,
            None => return None,
        };
        let n = initial.len();
        proof { initial.lemma_contents(); }
        let mut r: StrMap<i32> = StrMap::new();
        let mut i: usize = 0;
        while i < n
            invariant
                self.wf(),
                initial.wf(),
                r.wf(),
                *initial == self.initial_pair_stats@[conv_key(first_id@, second_id@)],
                forall|k: Seq<char>| #[trigger] initial@.dom().contains(k) ==> i32::MIN <= self.spec_pair_stat(first_id@, second_id@, k) - initial@[k] <= i32::MAX,
                n == initial.key_seq().len(),
                i <= n,
                forall|k: Seq<char>| #[trigger] r@.dom().contains(k) <==> exists|j: int| 0 <= j < i && initial.key_seq()[j] == k,
                forall|k: Seq<char>| #[trigger] r@.dom().contains(k) ==> r@[k] as int == self.spec_pair_stat(first_id@, second_id@, k) - initial@[k],
            decreases n - i,
        {
            proof { initial.lemma_contents(); }
            let k = initial.key_at(i).clone();
            let init = *initial.value_at(i);
            let ks = string_from_chars(&k);
            let current = self.pair_stat(first_id, second_id, ks.as_str());
            assert(initial@.dom().contains(k@));
            r.insert(k, current - init);
            i = i + 1;
        }
        proof {
            initial.lemma_contents();
            assert(r@.dom() =~= initial@.dom());
        }
        Some(r)
    }

    /// Adds `delta` to a declared pair stat (starting from its default), holding
    /// the result within the declared bounds; an undeclared stat is refused.
    pub fn adjust_pair_stat(&mut self, first_participant_id: &str, second_participant_id: &str, stat_key: &str, delta: i32)
        -> (r: Result<(), String>)
        requires
            old(self).wf(),
            old(self).pair_stat_defs@.dom().contains(stat_key@) ==>
                i32::MIN <= old(self).spec_pair_stat(first_participant_id@, second_participant_id@, stat_key@) + delta <= i32::MAX,
        ensures
            final(self).wf(),
            r is Ok == old(self).pair_stat_defs@.dom().contains(stat_key@),
            r matches Err(e) ==> e@ == unknown_pair_stat_message(stat_key@),
            r is Err ==> final(self).pair_stats == old(self).pair_stats,
            r is Ok ==> final(self).spec_pair_stat(first_participant_id@, second_participant_id@, stat_key@)
                == old(self).pair_stat_defs@[stat_key@].spec_clamp(old(self).spec_pair_stat(first_participant_id@, second_participant_id@, stat_key@) + delta),
            r is Ok ==> forall|a: Seq<char>, b: Seq<char>, k: Seq<char>|
                (conv_key(a, b) != conv_key(first_participant_id@, second_participant_id@) || k != stat_key@)
                ==> #[trigger] final(self).spec_pair_stat(a, b, k) == old(self).spec_pair_stat(a, b, k),
            final(self).pair_stat_defs == old(self).pair_stat_defs,
            final(self).actor_stats == old(self).actor_stats,
            final(self).story_vars == old(self).story_vars,
            *final(self) == (WorldState { pair_stats: final(self).pair_stats, ..*old(self) }),
    {
        let definition = match self.pair_stat_defs.get_str(stat_key) {
            Some(d) => *d,
            None => {
                let mut msg = chars_of("unknown pair stat '");
                append_chars(&mut msg, &chars_of(stat_key));
                append_chars(&mut msg, &chars_of("'"));
                let e = string_from_chars(&msg);
                assert(e@ =~= unknown_pair_stat_message(stat_key@));
                return Err(e);
            },
        };
        let key = conversation_key_chars(first_participant_id, second_participant_id);
        let mut stats = match self.pair_stats.remove(&key) {
            Some(m) => m,
            None => StrMap::new(),
        };
        let value = match stats.get_str(stat_key) {
            Some(v) => *v,
            None => definition.default,
        };
        stats.insert_str(stat_key, definition.clamp(value + delta));
        self.pair_stats.insert(key, stats);
        Ok(())
    }

    /// Adds `delta` to a declared stat of the actor an id stands for (starting
    /// from its default), holding the result within the declared bounds; an
    /// undeclared stat is refused.
    pub fn adjust_actor_stat(&mut self, actor_id: &str, stat_key: &str, delta: i32) -> (r: Result<(), String>)
        requires
            old(self).wf(),
            old(self).actor_stat_defs@.dom().contains(stat_key@) ==>
                i32::MIN <= old(self).spec_actor_stat(actor_id@, stat_key@) + delta <= i32::MAX,
        ensures
            final(self).wf(),
            r is Ok == old(self).actor_stat_defs@.dom().contains(stat_key@),
            r matches Err(e) ==> e@ == unknown_actor_stat_message(stat_key@),
            r is Err ==> final(self).actor_stats == old(self).actor_stats,
            r is Ok ==> final(self).actor_stats@ == old(self).actor_stats@.insert(old(self).spec_remap(actor_id@),
                final(self).actor_stats@[old(self).spec_remap(actor_id@)]),
            r is Ok ==> final(self).actor_stats@[old(self).spec_remap(actor_id@)]@ == (
                if old(self).actor_stats@.dom().contains(old(self).spec_remap(actor_id@)) {
                    old(self).actor_stats@[old(self).spec_remap(actor_id@)]@
                } else {
                    Map::empty()
                }).insert(stat_key@, old(self).actor_stat_defs@[stat_key@].spec_clamp(old(self).spec_actor_stat(actor_id@, stat_key@) + delta) as i32),
            r is Ok ==> final(self).spec_actor_stat(actor_id@, stat_key@)
                == old(self).actor_stat_defs@[stat_key@].spec_clamp(old(self).spec_actor_stat(actor_id@, stat_key@) + delta),
            r is Ok ==> forall|a: Seq<char>, k: Seq<char>| (old(self).spec_remap(a) != old(self).spec_remap(actor_id@) || k != stat_key@)
                ==> #[trigger] final(self).spec_actor_stat(a, k) == old(self).spec_actor_stat(a, k),
            final(self).actor_stat_defs == old(self).actor_stat_defs,
            final(self).story_vars == old(self).story_vars,
            final(self).pair_stats == old(self).pair_stats,
            final(self).relationships == old(self).relationships,
            final(self).actor_room_overrides == old(self).actor_room_overrides,
            final(self).current_room_id == old(self).current_room_id,
            final(self).equipment == old(self).equipment,
            final(self).actor_level == old(self).actor_level,
            final(self).actor_xp == old(self).actor_xp,
            final(self).phase == old(self).phase,
            final(self).room_item_stock == old(self).room_item_stock,
            final(self).player_inventory == old(self).player_inventory,
            *final(self) == (WorldState { actor_stats: final(self).actor_stats, ..*old(self) }),
    {
        let definition = match self.actor_stat_defs.get_str(stat_key) {
            Some(d) => *d,
            None => {
                let mut msg = chars_of("unknown actor stat '");
                append_chars(&mut msg, &chars_of(stat_key));
                append_chars(&mut msg, &chars_of("'"));
                let e = string_from_chars(&msg);
                assert(e@ =~= unknown_actor_stat_message(stat_key@));
                return Err(e);
            },
        };
        let key = chars_of(remap_story_actor_id(self, actor_id));
        let mut stats = match self.actor_stats.remove(&key) {
            Some(m) => m,
            None => StrMap::new(),
        };
        let value = match stats.get_str(stat_key) {
            Some(v) => *v,
            None => definition.default,
        };
        stats.insert_str(stat_key, definition.clamp(value + delta));
        self.actor_stats.insert(key, stats);
        Ok(())
    }
}

/// While no stat has moved since the act's start was recorded (as right
/// after `WorldState::new`), every recorded change is zero.
pub proof fn law_unmoved_stats_have_no_changes(s: &WorldState, actor_id: Seq<char>, stat: Seq<char>)
    requires
        super::seeding::nested_view(s.initial_actor_stats) == super::seeding::nested_view(s.actor_stats),
        s.initial_actor_stats@.dom().contains(s.spec_remap(actor_id)),
        s.initial_actor_stats@[s.spec_remap(actor_id)]@.dom().contains(stat),
    ensures
        s.spec_actor_stat(actor_id, stat) - s.initial_actor_stats@[s.spec_remap(actor_id)]@[stat] == 0,
{
    let k = s.spec_remap(actor_id);
    assert(super::seeding::nested_view(s.initial_actor_stats)[k] == s.initial_actor_stats@[k]@);
    assert(s.actor_stats@.dom().contains(k)) by {
        assert(super::seeding::nested_view(s.actor_stats).dom().contains(k));
    }
    assert(super::seeding::nested_view(s.actor_stats)[k] == s.actor_stats@[k]@);
}

} // verus!

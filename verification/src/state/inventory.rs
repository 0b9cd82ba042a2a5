use vstd::prelude::*;
use super::WorldState;
use crate::content::ItemStorageTarget;
use crate::smap::StrMap;
use crate::text::{chars_of, join_key, key_sep, key_sep_chars, concat_chars, matches_at, seq_starts_with, string_from_chars};

verus! {

/// The key of an item lying in a room: `room::item`.
pub open spec fn room_item_key(room_id: Seq<char>, item_id: Seq<char>) -> Seq<char> {
    room_id + key_sep() + item_id
}

/// The key of a feature's consumable: `room::feature::consumable`.
pub open spec fn consumable_key(room_id: Seq<char>, feature_id: Seq<char>, consumable_id: Seq<char>) -> Seq<char> {
    room_id + key_sep() + feature_id + key_sep() + consumable_id
}

pub fn consumable_key_chars(room_id: &str, feature_id: &str, consumable_id: &str) -> (r: Vec<char>)
    ensures
        r@ == consumable_key(room_id@, feature_id@, consumable_id@),
{
    let first = join_key(room_id, feature_id);
    let r = concat_chars(&concat_chars(&first, &key_sep_chars()), &chars_of(consumable_id));
    r
}

pub open spec fn count_in(m: Map<Seq<char>, u32>, k: Seq<char>) -> u32 {
    if m.dom().contains(k) { m[k] } else { 0 }
}

/// A count map after one of `k` is taken: the entry drops by one, and
/// goes once it would reach zero.
pub open spec fn stock_after_take(m: Map<Seq<char>, u32>, k: Seq<char>) -> Map<Seq<char>, u32> {
    let c = count_in(m, k);
    if c > 1 { m.insert(k, (c - 1) as u32) } else { m.remove(k) }
}

/// A room's item charges after one of `k` is taken: they go with the last
/// of the item.
pub open spec fn charges_after_take(stock: Map<Seq<char>, u32>, charges: Map<Seq<char>, u32>, k: Seq<char>) -> Map<Seq<char>, u32> {
    if count_in(stock, k) > 1 { charges } else { charges.remove(k) }
}

/// What taking one of an item out of a storage does to the world: the
/// count there drops as `stock_after_take` says, and the equipment, story
/// variables, stats and relationships stay as they were.
pub open spec fn took_one(before: &WorldState, after: &WorldState, item_id: Seq<char>, storage: ItemStorageTarget, room_id: Seq<char>) -> bool {
    &&& storage == ItemStorageTarget::PlayerInventory ==> {
        &&& after.player_inventory@ == stock_after_take(before.player_inventory@, item_id)
        &&& after.room_item_stock == before.room_item_stock
        &&& after.room_item_charges == before.room_item_charges
    }
    &&& storage == ItemStorageTarget::CurrentRoom ==> {
        let k = room_item_key(room_id, item_id);
        &&& after.room_item_stock@ == stock_after_take(before.room_item_stock@, k)
        &&& after.room_item_charges@ == charges_after_take(before.room_item_stock@, before.room_item_charges@, k)
        &&& after.player_inventory == before.player_inventory
    }
    &&& after.equipment == before.equipment
    &&& after.story_vars == before.story_vars
    &&& after.actor_stats == before.actor_stats
    &&& after.relationships == before.relationships
}

/// The loose items among the first `n` stock entries whose keys lie under
/// `prefix`, as (item id, count), in key order.
pub open spec fn loose_items_upto(keys: Seq<Seq<char>>, counts: Seq<u32>, prefix: Seq<char>, n: int) -> Seq<(Seq<char>, u32)>
    decreases n,
{
    if n <= 0 {
        Seq::empty()
    } else {
        let prev = loose_items_upto(keys, counts, prefix, n - 1);
        if seq_starts_with(keys[n - 1], prefix) {
            prev.push((keys[n - 1].skip(prefix.len() as int), counts[n - 1]))
        } else {
            prev
        }
    }
}

impl WorldState {
    pub open spec fn spec_item_count(&self, item_id: Seq<char>) -> u32 {
        count_in(self.player_inventory@, item_id)
    }

    pub open spec fn spec_item_count_in_storage(&self, item_id: Seq<char>, storage: ItemStorageTarget, room_id: Seq<char>) -> u32 {
        match storage {
            ItemStorageTarget::PlayerInventory => self.spec_item_count(item_id),
            ItemStorageTarget::CurrentRoom => count_in(self.room_item_stock@, room_item_key(room_id, item_id)),
        }
    }

    pub fn has_item(&self, item_id: &str) -> (r: bool)
        requires
            self.wf(),
        ensures
            r == (self.spec_item_count(item_id@) > 0),
    {
        self.item_count(item_id) > 0
    }

    pub fn item_count(&self, item_id: &str) -> (r: u32)
        requires
            self.wf(),
        ensures
            r == self.spec_item_count(item_id@),
    {
        match self.player_inventory.get_str(item_id) {
            Some(c) => *c,
            None => 0,
        }
    }

    /// Puts one more of an item into the player's inventory.
    pub fn add_item(&mut self, item_id: &str)
        requires
            old(self).wf(),
            old(self).spec_item_count(item_id@) < u32::MAX,
        ensures
            final(self).wf(),
            final(self).player_inventory@ == old(self).player_inventory@.insert(item_id@, (old(self).spec_item_count(item_id@) + 1) as u32),
            final(self).room_item_stock == old(self).room_item_stock,
            final(self).room_item_charges == old(self).room_item_charges,
            final(self).equipment == old(self).equipment,
            final(self).story_vars == old(self).story_vars,
            final(self).actor_stats == old(self).actor_stats,
            final(self).relationships == old(self).relationships,
            final(self).current_room_id == old(self).current_room_id,
            *final(self) == (WorldState { player_inventory: final(self).player_inventory, ..*old(self) }),
    {
        let c = self.item_count(item_id);
        self.player_inventory.insert_str(item_id, c + 1);
    }

    /// Takes one of an item out of the player's inventory; an entry left at
    /// zero is dropped. Answers whether there was one to take.
    pub fn remove_item(&mut self, item_id: &str) -> (r: bool)
        requires
            old(self).wf(),
        ensures
            final(self).wf(),
            r == (old(self).spec_item_count(item_id@) > 0),
            final(self).player_inventory@ == (if old(self).spec_item_count(item_id@) > 1 {
                old(self).player_inventory@.insert(item_id@, (old(self).spec_item_count(item_id@) - 1) as u32)
            } else {
                old(self).player_inventory@.remove(item_id@)
            }),
            final(self).room_item_stock == old(self).room_item_stock,
            final(self).room_item_charges == old(self).room_item_charges,
            final(self).equipment == old(self).equipment,
            final(self).story_vars == old(self).story_vars,
            final(self).actor_stats == old(self).actor_stats,
            final(self).relationships == old(self).relationships,
            final(self).current_room_id == old(self).current_room_id,
            *final(self) == (WorldState { player_inventory: final(self).player_inventory, ..*old(self) }),
    {
        let key = chars_of(item_id);
        let c = match self.player_inventory.get(&key) {
            Some(c) => *c,
            None => 0,
        };
        if c > 1 {
            self.player_inventory.insert(key, c - 1);
        } else {
            self.player_inventory.remove(&key);
            assert(self.player_inventory@ =~= old(self).player_inventory@.remove(item_id@));
        }
        c > 0
    }

    pub fn has_item_in_storage(&self, item_id: &str, storage: ItemStorageTarget, current_room_id: &str) -> (r: bool)
        requires
            self.wf(),
        ensures
            r == (self.spec_item_count_in_storage(item_id@, storage, current_room_id@) > 0),
    {
        self.item_count_in_storage(item_id, storage, current_room_id) > 0
    }

    pub fn item_count_in_storage(&self, item_id: &str, storage: ItemStorageTarget, current_room_id: &str) -> (r: u32)
        requires
            self.wf(),
        ensures
            r == self.spec_item_count_in_storage(item_id@, storage, current_room_id@),
    {
        match storage {
            ItemStorageTarget::PlayerInventory => self.item_count(item_id),
            ItemStorageTarget::CurrentRoom => match self.room_item_stock.get(&join_key(current_room_id, item_id)) {
                Some(c) => *c,
                None => 0,
            },
        }
    }

    pub fn add_item_to_storage(&mut self, item_id: &str, storage: ItemStorageTarget, current_room_id: &str)
        requires
            old(self).wf(),
            old(self).spec_item_count_in_storage(item_id@, storage, current_room_id@) < u32::MAX,
        ensures
            final(self).wf(),
            storage == ItemStorageTarget::PlayerInventory ==> final(self).player_inventory@ == old(self).player_inventory@.insert(
                item_id@, (old(self).spec_item_count(item_id@) + 1) as u32) && final(self).room_item_stock == old(self).room_item_stock,
            storage == ItemStorageTarget::CurrentRoom ==> final(self).room_item_stock@ == old(self).room_item_stock@.insert(
                room_item_key(current_room_id@, item_id@),
                (old(self).spec_item_count_in_storage(item_id@, storage, current_room_id@) + 1) as u32)
                && final(self).player_inventory == old(self).player_inventory,
            final(self).equipment == old(self).equipment,
            final(self).story_vars == old(self).story_vars,
            final(self).actor_stats == old(self).actor_stats,
            final(self).relationships == old(self).relationships,
            final(self).room_item_charges == old(self).room_item_charges,
            *final(self) == (WorldState { player_inventory: final(self).player_inventory,
                room_item_stock: final(self).room_item_stock, ..*old(self) }),
    {
        match storage {
            ItemStorageTarget::PlayerInventory => self.add_item(item_id),
            ItemStorageTarget::CurrentRoom => {
                let key = join_key(current_room_id, item_id);
                let c = match self.room_item_stock.get(&key) {
                    Some(c) => *c,
                    None => 0,
                };
                self.room_item_stock.insert(key, c + 1);
            },
        }
    }

    /// Takes one of an item from the given storage. A room entry that reaches
    /// zero is dropped together with its activation charges.
    pub fn remove_item_from_storage(&mut self, item_id: &str, storage: ItemStorageTarget, current_room_id: &str) -> (r: bool)
        requires
            old(self).wf(),
        ensures
            final(self).wf(),
            r == (old(self).spec_item_count_in_storage(item_id@, storage, current_room_id@) > 0),
            storage == ItemStorageTarget::PlayerInventory ==> final(self).player_inventory@ == (if old(self).spec_item_count(item_id@) > 1 {
                    old(self).player_inventory@.insert(item_id@, (old(self).spec_item_count(item_id@) - 1) as u32)
                } else {
                    old(self).player_inventory@.remove(item_id@)
                }) && final(self).room_item_stock == old(self).room_item_stock
                && final(self).room_item_charges == old(self).room_item_charges,
            storage == ItemStorageTarget::CurrentRoom ==> {
                let k = room_item_key(current_room_id@, item_id@);
                let c = count_in(old(self).room_item_stock@, k);
                &&& final(self).room_item_stock@ == (if c > 1 {
                    old(self).room_item_stock@.insert(k, (c - 1) as u32)
                } else {
                    old(self).room_item_stock@.remove(k)
                })
                &&& final(self).room_item_charges@ == (if c > 1 {
                    old(self).room_item_charges@
                } else {
                    old(self).room_item_charges@.remove(k)
                })
                &&& final(self).player_inventory == old(self).player_inventory
            },
            final(self).equipment == old(self).equipment,
            final(self).story_vars == old(self).story_vars,
            final(self).actor_stats == old(self).actor_stats,
            final(self).relationships == old(self).relationships,
            final(self).current_room_id == old(self).current_room_id,
            *final(self) == (WorldState { player_inventory: final(self).player_inventory, room_item_stock: final(self).room_item_stock,
                room_item_charges: final(self).room_item_charges, ..*old(self) }),
    {
        match storage {
            ItemStorageTarget::PlayerInventory => self.remove_item(item_id),
            ItemStorageTarget::CurrentRoom => {
                let key = join_key(current_room_id, item_id);
                let c = match self.room_item_stock.get(&key) {
                    Some(c) => *c,
                    None => 0,
                };
                if c > 1 {
                    self.room_item_stock.insert(key, c - 1);
                } else {
                    self.room_item_stock.remove(&key);
                    self.room_item_charges.remove(&key);
                    assert(self.room_item_stock@ =~= old(self).room_item_stock@.remove(key@));
                }
                c > 0
            },
        }
    }

    /// Removes every loose instance of an item from a room, with its charges.
    pub fn remove_items_from_room(&mut self, room_id: &str, item_id: &str) -> (r: bool)
        requires
            old(self).wf(),
        ensures
            final(self).wf(),
            r == old(self).room_item_stock@.dom().contains(room_item_key(room_id@, item_id@)),
            final(self).room_item_stock@ == old(self).room_item_stock@.remove(room_item_key(room_id@, item_id@)),
            final(self).room_item_charges@ == old(self).room_item_charges@.remove(room_item_key(room_id@, item_id@)),
            final(self).player_inventory == old(self).player_inventory,
            final(self).equipment == old(self).equipment,
            final(self).story_vars == old(self).story_vars,
            final(self).actor_stats == old(self).actor_stats,
            final(self).relationships == old(self).relationships,
    {
        let key = join_key(room_id, item_id);
        let had = self.room_item_stock.remove(&key).is_some();
        self.room_item_charges.remove(&key);
        had
    }

    /// Loose items lying in a room, as (item id, count), in key order.
    pub fn loose_room_items(&self, room_id: &str) -> (r: Vec<(String, u32)>)
        requires
            self.wf(),
        ensures
            r@.map_values(|e: (String, u32)| (e.0@, e.1)) == loose_items_upto(self.room_item_stock.key_seq(),
                self.room_item_stock.val_seq(), room_id@ + key_sep(), self.room_item_stock.key_seq().len() as int),
    {
        let prefix = concat_chars(&chars_of(room_id), &key_sep_chars());
        let n = self.room_item_stock.len();
        proof { self.room_item_stock.lemma_contents(); }
        let mut r: Vec<(String, u32)> = Vec::new();
        let mut i: usize = 0;
        while i < n
            invariant
                self.wf(),
                n == self.room_item_stock.key_seq().len(),
                n == self.room_item_stock.val_seq().len(),
                prefix@ == room_id@ + key_sep(),
                i <= n,
                r@.map_values(|e: (String, u32)| (e.0@, e.1)) == loose_items_upto(self.room_item_stock.key_seq(),
                    self.room_item_stock.val_seq(), prefix@, i as int),
            decreases n - i,
        {
            let key = self.room_item_stock.key_at(i);
            let count = *self.room_item_stock.value_at(i);
            assert(key@.skip(0) =~= key@);
            if matches_at(key, 0, &prefix) {
                let mut rest: Vec<char> = Vec::new();
                let mut j: usize = prefix.len();
                while j < key.len()
                    invariant
                        prefix.len() <= j <= key.len(),
                        rest@ == key@.subrange(prefix.len() as int, j as int),
                    decreases key.len() - j,
                {
                    rest.push(key[j]);
                    j = j + 1;
                    assert(rest@ =~= key@.subrange(prefix.len() as int, j as int));
                }
                assert(rest@ =~= key@.skip(prefix.len() as int));
                let ghost before = r@;
                let entry = (string_from_chars(&rest), count);
                r.push(entry);
                assert(r@.map_values(|e: (String, u32)| (e.0@, e.1)) =~= before.map_values(|e: (String, u32)| (e.0@, e.1)).push((entry.0@, entry.1)));
            }
            i = i + 1;
        }
        r
    }

    pub fn remaining_consumable_stock(&self, room_id: &str, feature_id: &str, consumable_id: &str) -> (r: u32)
        requires
            self.wf(),
        ensures
            r == count_in(self.feature_consumable_stock@, consumable_key(room_id@, feature_id@, consumable_id@)),
    {
        match self.feature_consumable_stock.get(&consumable_key_chars(room_id, feature_id, consumable_id)) {
            Some(c) => *c,
            None => 0,
        }
    }

    /// Uses up one unit of a feature's consumable; refused when the
    /// consumable is unknown or out of stock.
    pub fn consume_feature_consumable(&mut self, room_id: &str, feature_id: &str, consumable_id: &str) -> (r: bool)
        requires
            old(self).wf(),
        ensures
            final(self).wf(),
            r == (count_in(old(self).feature_consumable_stock@, consumable_key(room_id@, feature_id@, consumable_id@)) > 0),
            r ==> final(self).feature_consumable_stock@ == old(self).feature_consumable_stock@.insert(
                consumable_key(room_id@, feature_id@, consumable_id@),
                (old(self).feature_consumable_stock@[consumable_key(room_id@, feature_id@, consumable_id@)] - 1) as u32),
            !r ==> final(self).feature_consumable_stock == old(self).feature_consumable_stock,
            *final(self) == (WorldState { feature_consumable_stock: final(self).feature_consumable_stock, ..*old(self) }),
    {
        let key = consumable_key_chars(room_id, feature_id, consumable_id);
        let stock = match self.feature_consumable_stock.get(&key) {
            Some(s) => *s,
            None => return false,
        };
        if stock == 0 {
            return false;
        }
        self.feature_consumable_stock.insert(key, stock - 1);
        true
    }

    /// Adds stock to a feature's consumable, creating the entry if needed.
    pub fn restock_feature_consumable(&mut self, room_id: &str, feature_id: &str, consumable_id: &str, amount: u32) -> (r: bool)
        requires
            old(self).wf(),
            count_in(old(self).feature_consumable_stock@, consumable_key(room_id@, feature_id@, consumable_id@)) + amount <= u32::MAX,
        ensures
            final(self).wf(),
            r,
            final(self).feature_consumable_stock@ == old(self).feature_consumable_stock@.insert(
                consumable_key(room_id@, feature_id@, consumable_id@),
                (count_in(old(self).feature_consumable_stock@, consumable_key(room_id@, feature_id@, consumable_id@)) + amount) as u32),
    {
        let key = consumable_key_chars(room_id, feature_id, consumable_id);
        let stock = match self.feature_consumable_stock.get(&key) {
            Some(s) => *s,
            None => 0,
        };
        self.feature_consumable_stock.insert(key, stock + amount);
        true
    }
}

/// Adding an item and then taking one out leaves the inventory's count as it
/// was, and the removal succeeds; when the item was held or absent (not
/// stored with a count of zero), the inventory comes back exactly.
pub proof fn law_add_then_remove_item(before: Map<Seq<char>, u32>, item: Seq<char>)
    requires
        count_in(before, item) < u32::MAX,
    ensures
        ({
            let added = before.insert(item, (count_in(before, item) + 1) as u32);
            let c = count_in(added, item);
            let removed = if c > 1 { added.insert(item, (c - 1) as u32) } else { added.remove(item) };
            &&& c > 0
            &&& count_in(removed, item) == count_in(before, item)
            &&& forall|other: Seq<char>| other != item ==> count_in(removed, other) == count_in(before, other)
            &&& (before.dom().contains(item) ==> before[item] > 0) ==> removed == before
        }),
{
    let added = before.insert(item, (count_in(before, item) + 1) as u32);
    let c = count_in(added, item);
    let removed = if c > 1 { added.insert(item, (c - 1) as u32) } else { added.remove(item) };
    if before.dom().contains(item) ==> before[item] > 0 {
        assert(removed =~= before);
    }
}

} // verus!

use vstd::prelude::*;
use super::{sets_wf, WorldState};
use crate::content::ContentPack;
use crate::smap::{StrMap, StrSet};
use crate::text::{chars_of, join_key, key_sep, str_eq, string_of};

verus! {

/// The key of a feature seen in a room: `room::feature`.
pub open spec fn feature_key(room_id: Seq<char>, feature_id: Seq<char>) -> Seq<char> {
    room_id + key_sep() + feature_id
}

pub open spec fn set_has(m: Map<Seq<char>, StrSet>, k: Seq<char>, member: Seq<char>) -> bool {
    m.dom().contains(k) && m[k]@.contains(member)
}

/// The set recorded for `k` after adding `member`.
pub open spec fn set_after_insert(m: Map<Seq<char>, StrSet>, k: Seq<char>, member: Seq<char>) -> Set<Seq<char>> {
    if m.dom().contains(k) { m[k]@.insert(member) } else { Set::empty().insert(member) }
}

/// The most recent observation notes kept per actor.
pub open spec fn max_observation_notes() -> nat {
    6
}

/// A per-actor set map after `member` joins the set of `k`: `k` gains an
/// entry if it had none, and every other entry stays.
pub open spec fn set_map_gained(before: Map<Seq<char>, StrSet>, after: Map<Seq<char>, StrSet>, k: Seq<char>, member: Seq<char>) -> bool {
    &&& after.dom() == before.dom().insert(k)
    &&& after[k]@ == set_after_insert(before, k, member)
    &&& forall|o: Seq<char>| o != k && #[trigger] before.dom().contains(o) ==> after[o] == before[o]
}

/// An actor's notes after one more: the new note last, only the most recent
/// few kept.
pub open spec fn notes_after(m: Map<Seq<char>, Vec<String>>, actor_id: Seq<char>, note: String) -> Seq<String> {
    let before = if m.dom().contains(actor_id) { m[actor_id]@ } else { Seq::empty() };
    let all = before.push(note);
    if all.len() > max_observation_notes() { all.skip(all.len() - max_observation_notes()) } else { all }
}

fn insert_into_set_map(m: &mut StrMap<StrSet>, k: &str, member: &str)
    requires
        sets_wf(*old(m)),
    ensures
        sets_wf(*final(m)),
        final(m)@.dom() == old(m)@.dom().insert(k@),
        final(m)@[k@]@ == set_after_insert(old(m)@, k@, member@),
        forall|o: Seq<char>| o != k@ && #[trigger] old(m)@.dom().contains(o) ==> final(m)@[o] == old(m)@[o],
{
    let key = chars_of(k);
    let mut set = match m.remove(&key) {
        Some(s) => s,
        None => StrSet::new(),
    };
    set.insert(chars_of(member));
    m.insert(key, set);
    assert(m@.dom() =~= old(m)@.dom().insert(k@));
}

impl WorldState {
    pub open spec fn spec_actor_room_id(&self, actor_id: Seq<char>, default_room_id: Seq<char>) -> Seq<char> {
        if self.actor_room_overrides@.dom().contains(actor_id) { self.actor_room_overrides@[actor_id]@ } else { default_room_id }
    }

    /// An actor's current room: its override, otherwise its home room (empty
    /// for an unknown actor).
    pub open spec fn spec_actor_current_room_id(&self, content: &ContentPack, actor_id: Seq<char>) -> Seq<char> {
        if self.actor_room_overrides@.dom().contains(actor_id) {
            self.actor_room_overrides@[actor_id]@
        } else if content.has_actor(actor_id) {
            content.spec_actor(actor_id).room_id@
        } else {
            Seq::empty()
        }
    }

    /// Whether a known, onstage actor is in the room right now.
    pub open spec fn spec_actor_is_in_room(&self, content: &ContentPack, actor_id: Seq<char>, room_id: Seq<char>) -> bool {
        content.has_actor(actor_id) && !content.spec_actor(actor_id).spec_is_offstage()
            && self.spec_actor_room_id(actor_id, content.spec_actor(actor_id).room_id@) == room_id
    }

    pub fn actor_room_id<'a>(&'a self, actor_id: &str, default_room_id: &'a str) -> (r: &'a str)
        requires
            self.wf(),
        ensures
            r@ == self.spec_actor_room_id(actor_id@, default_room_id@),
    {
        match self.actor_room_overrides.get_str(actor_id) {
            Some(room) => room.as_str(),
            None => default_room_id,
        }
    }

    pub fn actor_current_room_id<'a>(&'a self, content: &'a ContentPack, actor_id: &str) -> (r: &'a str)
        requires
            self.wf(),
        ensures
            r@ == self.spec_actor_current_room_id(content, actor_id@),
    {
        match self.actor_room_overrides.get_str(actor_id) {
            Some(room) => return room.as_str(),
            None => {},
        }
        match content.actor(actor_id) {
            Some(actor) => actor.room_id.as_str(),
            None => {
                let r = "";
                proof { reveal_strlit(""); }
                r
            },
        }
    }

    pub fn actor_is_in_room(&self, content: &ContentPack, actor_id: &str, room_id: &str) -> (r: bool)
        requires
            self.wf(),
        ensures
            r == self.spec_actor_is_in_room(content, actor_id@, room_id@),
    {
        let actor = match content.actor(actor_id) {
            Some(a) => a,
            None => return false,
        };
        if actor.is_offstage() {
            return false;
        }
        str_eq(self.actor_room_id(actor_id, actor.room_id.as_str()), room_id)
    }

    pub fn actor_has_visited_room(&self, actor_id: &str, room_id: &str) -> (r: bool)
        requires
            self.wf(),
        ensures
            r == set_has(self.actor_known_room_ids@, actor_id@, room_id@),
    {
        match self.actor_known_room_ids.get_str(actor_id) {
            Some(rooms) => rooms.contains(&chars_of(room_id)),
            None => false,
        }
    }

    pub fn mark_actor_room_visited(&mut self, actor_id: &str, room_id: &str)
        requires
            old(self).wf(),
        ensures
            final(self).wf(),
            final(self).actor_known_room_ids@.dom() == old(self).actor_known_room_ids@.dom().insert(actor_id@),
            final(self).actor_known_room_ids@[actor_id@]@ == set_after_insert(old(self).actor_known_room_ids@, actor_id@, room_id@),
            forall|o: Seq<char>| o != actor_id@ && #[trigger] old(self).actor_known_room_ids@.dom().contains(o)
                ==> final(self).actor_known_room_ids@[o] == old(self).actor_known_room_ids@[o],
            *final(self) == (WorldState { actor_known_room_ids: final(self).actor_known_room_ids, ..*old(self) }),
    {
        insert_into_set_map(&mut self.actor_known_room_ids, actor_id, room_id);
    }

    pub fn actor_has_seen_feature(&self, actor_id: &str, room_id: &str, feature_id: &str) -> (r: bool)
        requires
            self.wf(),
        ensures
            r == set_has(self.actor_known_feature_ids@, actor_id@, feature_key(room_id@, feature_id@)),
    {
        match self.actor_known_feature_ids.get_str(actor_id) {
            Some(features) => features.contains(&join_key(room_id, feature_id)),
            None => false,
        }
    }

    pub fn mark_actor_feature_seen(&mut self, actor_id: &str, room_id: &str, feature_id: &str)
        requires
            old(self).wf(),
        ensures
            final(self).wf(),
            set_map_gained(old(self).actor_known_feature_ids@, final(self).actor_known_feature_ids@, actor_id@, feature_key(room_id@, feature_id@)),
            *final(self) == (WorldState { actor_known_feature_ids: final(self).actor_known_feature_ids, ..*old(self) }),
    {
        let key = crate::text::string_from_chars(&join_key(room_id, feature_id));
        insert_into_set_map(&mut self.actor_known_feature_ids, actor_id, key.as_str());
    }

    pub fn actor_has_studied_actor(&self, actor_id: &str, target_actor_id: &str) -> (r: bool)
        requires
            self.wf(),
        ensures
            r == set_has(self.actor_known_actor_ids@, actor_id@, target_actor_id@),
    {
        match self.actor_known_actor_ids.get_str(actor_id) {
            Some(actors) => actors.contains(&chars_of(target_actor_id)),
            None => false,
        }
    }

    pub fn mark_actor_studied_actor(&mut self, actor_id: &str, target_actor_id: &str)
        requires
            old(self).wf(),
        ensures
            final(self).wf(),
            set_map_gained(old(self).actor_known_actor_ids@, final(self).actor_known_actor_ids@, actor_id@, target_actor_id@),
            *final(self) == (WorldState { actor_known_actor_ids: final(self).actor_known_actor_ids, ..*old(self) }),
    {
        insert_into_set_map(&mut self.actor_known_actor_ids, actor_id, target_actor_id);
    }

    pub fn actor_has_observed_room(&self, actor_id: &str, room_id: &str) -> (r: bool)
        requires
            self.wf(),
        ensures
            r == set_has(self.actor_observed_room_ids@, actor_id@, room_id@),
    {
        match self.actor_observed_room_ids.get_str(actor_id) {
            Some(rooms) => rooms.contains(&chars_of(room_id)),
            None => false,
        }
    }

    pub fn mark_actor_observed_room(&mut self, actor_id: &str, room_id: &str)
        requires
            old(self).wf(),
        ensures
            final(self).wf(),
            set_map_gained(old(self).actor_observed_room_ids@, final(self).actor_observed_room_ids@, actor_id@, room_id@),
            *final(self) == (WorldState { actor_observed_room_ids: final(self).actor_observed_room_ids, ..*old(self) }),
    {
        insert_into_set_map(&mut self.actor_observed_room_ids, actor_id, room_id);
    }

    /// Records a note, keeping only the six most recent ones.
    pub fn push_actor_observation_note(&mut self, actor_id: &str, note: String)
        requires
            old(self).wf(),
        ensures
            final(self).wf(),
            final(self).actor_recent_observation_notes@ == old(self).actor_recent_observation_notes@.insert(actor_id@,
                final(self).actor_recent_observation_notes@[actor_id@]),
            final(self).actor_recent_observation_notes@[actor_id@]@ == notes_after(old(self).actor_recent_observation_notes@, actor_id@, note),
            *final(self) == (WorldState { actor_recent_observation_notes: final(self).actor_recent_observation_notes, ..*old(self) }),
    {
        let key = chars_of(actor_id);
        let mut notes = match self.actor_recent_observation_notes.remove(&key) {
            Some(n) => n,
            None => Vec::new(),
        };
        notes.push(note);
        let ghost all = notes@;
        if notes.len() > 6 {
            let drop = notes.len() - 6;
            let mut kept: Vec<String> = Vec::new();
            let mut i: usize = drop;
            while i < notes.len()
                invariant
                    drop <= i <= notes.len(),
                    notes@ == all,
                    kept@ == all.subrange(drop as int, i as int),
                decreases notes.len() - i,
            {
                kept.push(notes[i].clone());
                i = i + 1;
                assert(kept@ =~= all.subrange(drop as int, i as int));
            }
            assert(kept@ =~= all.skip(drop as int));
            notes = kept;
        }
        self.actor_recent_observation_notes.insert(key, notes);
    }

    pub fn actor_recent_observation_notes(&self, actor_id: &str) -> (r: &[String])
        requires
            self.wf(),
        ensures
            r@ == (if self.actor_recent_observation_notes@.dom().contains(actor_id@) {
                self.actor_recent_observation_notes@[actor_id@]@
            } else {
                Seq::empty()
            }),
    {
        match self.actor_recent_observation_notes.get_str(actor_id) {
            Some(notes) => notes.as_slice(),
            None => {
                let empty: &[String] = &[];
                assert(empty@ =~= Seq::<String>::empty());
                empty
            },
        }
    }
}

/// However many notes an actor is given, at most six are kept.
pub proof fn law_observation_notes_bounded(before: Seq<String>, note: String)
    requires
        before.len() <= max_observation_notes(),
    ensures
        ({
            let all = before.push(note);
            let kept = if all.len() > max_observation_notes() { all.skip(all.len() - max_observation_notes()) } else { all };
            &&& kept.len() <= max_observation_notes()
            &&& kept.last() == note
        }),
{
}

} // verus!

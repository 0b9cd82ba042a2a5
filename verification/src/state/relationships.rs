use vstd::prelude::*;
use super::{ActorRelationship, ActorStance, WorldState};
use super::appointments::remap_story_actor_id;
use crate::text::chars_of;

verus! {

impl WorldState {
    /// Relationship toward the player of the actor an id stands for; actors
    /// without an entry are neutral and not following.
    pub open spec fn spec_relationship(&self, actor_id: Seq<char>) -> ActorRelationship {
        let k = self.spec_remap(actor_id);
        if self.relationships@.dom().contains(k) { self.relationships@[k] } else { ActorRelationship::neutral() }
    }

    pub fn relationship(&self, actor_id: &str) -> (r: ActorRelationship)
        requires
            self.wf(),
        ensures
            r == self.spec_relationship(actor_id@),
    {
        let id = remap_story_actor_id(self, actor_id);
        match self.relationships.get_str(id) {
            Some(r) => *r,
            None => ActorRelationship::default(),
        }
    }

    pub fn stance(&self, actor_id: &str) -> (r: ActorStance)
        requires
            self.wf(),
        ensures
            r == self.spec_relationship(actor_id@).stance,
    {
        self.relationship(actor_id).stance
    }

    pub fn follows_player(&self, actor_id: &str) -> (r: bool)
        requires
            self.wf(),
        ensures
            r == self.spec_relationship(actor_id@).follows_player,
    {
        self.relationship(actor_id).follows_player
    }

    /// Writes a relationship snapshot. The neutral relationship removes the
    /// entry, keeping state sparse; any stance but hostile drops the actor's
    /// pending strike time.
    pub fn set_relationship(&mut self, actor_id: &str, relationship: ActorRelationship)
        requires
            old(self).wf(),
        ensures
            final(self).wf(),
            final(self).relationships@ == (if relationship == ActorRelationship::neutral() {
                old(self).relationships@.remove(old(self).spec_remap(actor_id@))
            } else {
                old(self).relationships@.insert(old(self).spec_remap(actor_id@), relationship)
            }),
            final(self).next_hostile_strike_at@ == (if relationship.stance != ActorStance::Hostile {
                old(self).next_hostile_strike_at@.remove(old(self).spec_remap(actor_id@))
            } else {
                old(self).next_hostile_strike_at@
            }),
            final(self).story_vars == old(self).story_vars,
            final(self).actor_stats == old(self).actor_stats,
            final(self).actor_room_overrides == old(self).actor_room_overrides,
            final(self).current_room_id == old(self).current_room_id,
            final(self).party_orders == old(self).party_orders,
            final(self).act_series == old(self).act_series,
            *final(self) == (WorldState { relationships: final(self).relationships,
                next_hostile_strike_at: final(self).next_hostile_strike_at, ..*old(self) }),
    {
        let key = chars_of(remap_story_actor_id(self, actor_id));
        if relationship == ActorRelationship::default() {
            self.relationships.remove(&key);
        } else {
            self.relationships.insert(key.clone(), relationship);
        }
        if relationship.stance != ActorStance::Hostile {
            self.next_hostile_strike_at.remove(&key);
        }
    }

    pub fn set_stance(&mut self, actor_id: &str, stance: ActorStance)
        requires
            old(self).wf(),
        ensures
            final(self).wf(),
            final(self).spec_relationship(actor_id@) == (ActorRelationship {
                stance: stance,
                follows_player: old(self).spec_relationship(actor_id@).follows_player,
            }),
            forall|other: Seq<char>| old(self).spec_remap(other) != old(self).spec_remap(actor_id@)
                ==> #[trigger] final(self).spec_relationship(other) == old(self).spec_relationship(other),
            final(self).story_vars == old(self).story_vars,
            final(self).actor_stats == old(self).actor_stats,
            final(self).actor_room_overrides == old(self).actor_room_overrides,
            final(self).current_room_id == old(self).current_room_id,
            final(self).party_orders == old(self).party_orders,
            final(self).act_series == old(self).act_series,
    {
        let mut relationship = self.relationship(actor_id);
        relationship.stance = stance;
        self.set_relationship(actor_id, relationship);
    }

    pub fn set_follows_player(&mut self, actor_id: &str, follows_player: bool)
        requires
            old(self).wf(),
        ensures
            final(self).wf(),
            final(self).spec_relationship(actor_id@) == (ActorRelationship {
                stance: old(self).spec_relationship(actor_id@).stance,
                follows_player: follows_player,
            }),
            forall|other: Seq<char>| old(self).spec_remap(other) != old(self).spec_remap(actor_id@)
                ==> #[trigger] final(self).spec_relationship(other) == old(self).spec_relationship(other),
            final(self).story_vars == old(self).story_vars,
            final(self).actor_stats == old(self).actor_stats,
            final(self).actor_room_overrides == old(self).actor_room_overrides,
            final(self).current_room_id == old(self).current_room_id,
            final(self).party_orders == old(self).party_orders,
            final(self).act_series == old(self).act_series,
    {
        let mut relationship = self.relationship(actor_id);
        relationship.follows_player = follows_player;
        self.set_relationship(actor_id, relationship);
    }
}

/// Reading a relationship back gives what was last written for the same
/// actor; writing the neutral relationship leaves no entry behind.
pub proof fn law_relationship_read_after_write(before: WorldState, after: WorldState, actor_id: Seq<char>, relationship: ActorRelationship)
    requires
        before.wf(),
        after.story_vars == before.story_vars,
        after.relationships@ == (if relationship == ActorRelationship::neutral() {
            before.relationships@.remove(before.spec_remap(actor_id))
        } else {
            before.relationships@.insert(before.spec_remap(actor_id), relationship)
        }),
    ensures
        after.spec_relationship(actor_id) == relationship,
        relationship == ActorRelationship::neutral() ==> !after.relationships@.dom().contains(after.spec_remap(actor_id)),
{
}

} // verus!

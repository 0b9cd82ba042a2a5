use vstd::prelude::*;
use super::{ActorStance, WorldState};
use super::appointments::remap_story_actor_id;
use crate::content::{ContentPack, PartyOrderKind};
use crate::text::{append_chars, chars_of, string_from_chars, string_of};

verus! {

/// Why an actor cannot take a party order, if it cannot.
pub open spec fn party_member_refusal(content: &ContentPack, state: &WorldState, id: Seq<char>) -> Option<Seq<char>> {
    if !content.has_actor(id) {
        Some("unknown party actor '"@ + id + "'"@)
    } else if content.spec_is_player_actor(id) {
        Some("the player cannot receive a party order"@)
    } else if content.spec_actor(id).spec_is_offstage() {
        Some("offstage actor '"@ + id + "' cannot receive a party order"@)
    } else if state.spec_relationship(id).stance != ActorStance::Allied {
        Some("actor '"@ + id + "' is not allied"@)
    } else if !state.spec_actor_is_in_room(content, id, state.current_room_id@) {
        Some("actor '"@ + id + "' is not in the current room"@)
    } else if state.spec_actor_is_defeated(id, content.settings.combat.health_stat_id@) {
        Some("actor '"@ + id + "' is defeated"@)
    } else {
        None
    }
}

fn quoted_message(head: &str, id: &str, tail: &str) -> (r: String)
    ensures
        r@ == head@ + id@ + tail@,
{
    let mut msg = chars_of(head);
    append_chars(&mut msg, &chars_of(id));
    append_chars(&mut msg, &chars_of(tail));
    string_from_chars(&msg)
}

fn validate_party_member(content: &ContentPack, state: &WorldState, actor_id: &str) -> (r: Result<(), String>)
    requires
        state.wf(),
    ensures
        r is Ok == party_member_refusal(content, state, actor_id@) is None,
        r matches Err(e) ==> party_member_refusal(content, state, actor_id@) == Some(e@),
{
    let actor = match content.actor(actor_id) {
        Some(a) => a,
        None => return Err(quoted_message("unknown party actor '", actor_id, "'")),
    };
    if content.is_player_actor(actor_id) {
        return Err(string_of("the player cannot receive a party order"));
    }
    if actor.is_offstage() {
        return Err(quoted_message("offstage actor '", actor_id, "' cannot receive a party order"));
    }
    if state.stance(actor_id) != ActorStance::Allied {
        return Err(quoted_message("actor '", actor_id, "' is not allied"));
    }
    if !state.actor_is_in_room(content, actor_id, state.current_room_id.as_str()) {
        return Err(quoted_message("actor '", actor_id, "' is not in the current room"));
    }
    if state.actor_is_defeated(actor_id, content.settings.combat.health_stat_id.as_str()) {
        return Err(quoted_message("actor '", actor_id, "' is defeated"));
    }
    Ok(())
}

impl WorldState {
    /// An actor's order: the one assigned in play, otherwise the content's
    /// initial order.
    pub open spec fn spec_party_order(&self, content: &ContentPack, actor_id: Seq<char>) -> Option<PartyOrderKind> {
        let k = self.spec_remap(actor_id);
        if self.party_orders@.dom().contains(k) {
            Some(self.party_orders@[k])
        } else if content.settings.party.initial_orders@.dom().contains(k) {
            Some(content.settings.party.initial_orders@[k])
        } else {
            None
        }
    }

    pub fn party_order(&self, content: &ContentPack, actor_id: &str) -> (r: Option<PartyOrderKind>)
        requires
            self.wf(),
            content.wf(),
        ensures
            r == self.spec_party_order(content, actor_id@),
    {
        let id = remap_story_actor_id(self, actor_id);
        match self.party_orders.get_str(id) {
            Some(o) => Some(*o),
            None => match content.settings.party.initial_orders.get_str(id) {
                Some(o) => Some(*o),
                None => None,
            },
        }
    }

    /// Gives an order to a living, allied, onstage party member in the
    /// player's room; the member then follows the player.
    pub fn assign_party_order(&mut self, content: &ContentPack, actor_id: &str, order: PartyOrderKind) -> (r: Result<(), String>)
        requires
            old(self).wf(),
            content.wf(),
        ensures
            final(self).wf(),
            r is Ok == party_member_refusal(content, old(self), old(self).spec_remap(actor_id@)) is None,
            r matches Err(e) ==> party_member_refusal(content, old(self), old(self).spec_remap(actor_id@)) == Some(e@),
            r is Err ==> final(self).party_orders == old(self).party_orders && final(self).relationships == old(self).relationships,
            r is Ok ==> final(self).party_orders@ == old(self).party_orders@.insert(old(self).spec_remap(actor_id@), order),
            r is Ok ==> final(self).spec_party_order(content, actor_id@) == Some(order),
            r is Ok ==> final(self).spec_relationship(old(self).spec_remap(actor_id@)).follows_player,
            final(self).story_vars == old(self).story_vars,
    {
        let id = string_of(remap_story_actor_id(self, actor_id));
        validate_party_member(content, self, id.as_str())?;
        self.party_orders.insert_str(id.as_str(), order);
        self.set_follows_player(id.as_str(), true);
        Ok(())
    }

    /// Gives an actor the content's initial order, unless it already has one.
    pub fn initialize_party_order(&mut self, content: &ContentPack, actor_id: &str)
        requires
            old(self).wf(),
            content.wf(),
        ensures
            final(self).wf(),
            ({
                let k = old(self).spec_remap(actor_id@);
                final(self).party_orders@ == if !old(self).party_orders@.dom().contains(k)
                    && content.settings.party.initial_orders@.dom().contains(k) {
                    old(self).party_orders@.insert(k, content.settings.party.initial_orders@[k])
                } else {
                    old(self).party_orders@
                }
            }),
    {
        let id = string_of(remap_story_actor_id(self, actor_id));
        if self.party_orders.contains_str(id.as_str()) {
            return;
        }
        match content.settings.party.initial_orders.get_str(id.as_str()) {
            Some(order) => self.party_orders.insert_str(id.as_str(), *order),
            None => {},
        }
    }
}


/// An order that was accepted is the member's order from then on, whatever
/// the content's initial order.
pub proof fn law_assigned_order_reads_back(content: &ContentPack, before: WorldState, after: WorldState, actor_id: Seq<char>, order: PartyOrderKind)
    requires
        after.story_vars == before.story_vars,
        after.party_orders@ == before.party_orders@.insert(before.spec_remap(actor_id), order),
    ensures
        after.spec_party_order(content, actor_id) == Some(order),
{
}

} // verus!

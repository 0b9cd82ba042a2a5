use vstd::prelude::*;
use crate::content::{ActionDefinition, CommandEffect, ContentPack, ItemStorageTarget};
use crate::panels::{is_equipped, item_is_worn};
use crate::reducer::observation::{feature_of, find_feature};
use crate::state::{ActorStance, WorldState};
use crate::state::inventory::{consumable_key, count_in, room_item_key};
use crate::state::tracking::{feature_key, notes_after, set_map_gained};
use crate::turn_policies::{to_item_storage, to_storage};

verus! {

/// Who uses a command, where, and on what.
pub struct ActorCommandContext<'a> {
    pub actor_id: &'a str,
    pub actor_name: &'a str,
    pub room_id: &'a str,
    pub target_room_id: Option<&'a str>,
    pub target_actor_id: Option<&'a str>,
    pub target_actor_name: Option<&'a str>,
    pub context_label: Option<&'a str>,
    pub feature_id: Option<&'a str>,
    pub consumable_id: Option<&'a str>,
    pub freeform_text: Option<&'a str>,
}

/// Whether `after` is `before` once an actor has looked at a feature: the
/// feature is known to the actor and its text is the actor's latest note.
pub open spec fn feature_studied(before: WorldState, after: WorldState, actor: Seq<char>, room: Seq<char>, feature: Seq<char>,
    note: String) -> bool {
    &&& set_map_gained(before.actor_known_feature_ids@, after.actor_known_feature_ids@, actor, feature_key(room, feature))
    &&& after.actor_recent_observation_notes@ == before.actor_recent_observation_notes@.insert(actor, after.actor_recent_observation_notes@[actor])
    &&& after.actor_recent_observation_notes@[actor]@ == notes_after(before.actor_recent_observation_notes@, actor, note)
    &&& after == (WorldState { actor_known_feature_ids: after.actor_known_feature_ids,
        actor_recent_observation_notes: after.actor_recent_observation_notes, ..before })
}

/// Whether `after` is `before` once an actor has studied another: the other
/// is known to the actor and its text is the actor's latest note.
pub open spec fn actor_studied(before: WorldState, after: WorldState, actor: Seq<char>, target: Seq<char>, note: String) -> bool {
    &&& set_map_gained(before.actor_known_actor_ids@, after.actor_known_actor_ids@, actor, target)
    &&& after.actor_recent_observation_notes@ == before.actor_recent_observation_notes@.insert(actor, after.actor_recent_observation_notes@[actor])
    &&& after.actor_recent_observation_notes@[actor]@ == notes_after(before.actor_recent_observation_notes@, actor, note)
    &&& after == (WorldState { actor_known_actor_ids: after.actor_known_actor_ids,
        actor_recent_observation_notes: after.actor_recent_observation_notes, ..before })
}

/// Whether `after` is `before` once a targeted consumable is used: a unit of
/// the feature's stock when it has one, otherwise a loose one from the room
/// (the entry goes when it held at most one); `ok` tells whether there was
/// one to use.
pub open spec fn consumable_used(before: WorldState, after: WorldState, room: Seq<char>, feature: Seq<char>, consumable: Seq<char>,
    ok: bool) -> bool {
    let fk = consumable_key(room, feature, consumable);
    let rk = room_item_key(room, consumable);
    let c = count_in(before.room_item_stock@, rk);
    if count_in(before.feature_consumable_stock@, fk) > 0 {
        &&& ok
        &&& after == (WorldState { feature_consumable_stock: after.feature_consumable_stock, ..before })
        &&& after.feature_consumable_stock@ == before.feature_consumable_stock@.insert(fk,
            (before.feature_consumable_stock@[fk] - 1) as u32)
    } else {
        &&& ok == (c > 0)
        &&& after == (WorldState { room_item_stock: after.room_item_stock, room_item_charges: after.room_item_charges, ..before })
        &&& after.room_item_stock@ == (if c > 1 { before.room_item_stock@.insert(rk, (c - 1) as u32) } else { before.room_item_stock@.remove(rk) })
        &&& after.room_item_charges@ == (if c > 1 { before.room_item_charges@ } else { before.room_item_charges@.remove(rk) })
    }
}

/// What one effect of a command does when the actor uses it: `ok` tells
/// whether it can take place, and `after` is the world it leaves. Looking at a
/// feature or an actor records what was seen; using a targeted consumable
/// spends it; the other effects only check that they can take place.
pub open spec fn effect_realized(content: &ContentPack, ctx: ActorCommandContext, command: ActionDefinition, effect: CommandEffect,
    before: WorldState, after: WorldState, ok: bool) -> bool {
    let item = command.item_id@;
    match effect {
        CommandEffect::ObserveFeature => match ctx.feature_id {
            Some(f) => match feature_of(content, ctx.room_id@, f@) {
                Some(feat) => ok && feature_studied(before, after, ctx.actor_id@, ctx.room_id@, f@, feat.inspect_text),
                None => !ok && after == before,
            },
            None => !ok && after == before,
        },
        CommandEffect::ObserveActor => match ctx.target_actor_id {
            Some(t) => if content.has_actor(t@) {
                ok && actor_studied(before, after, ctx.actor_id@, t@, content.spec_actor(t@).inspect_text)
            } else {
                !ok && after == before
            },
            None => !ok && after == before,
        },
        CommandEffect::ConsumeTargetedConsumable => match (ctx.feature_id, ctx.consumable_id) {
            (Some(f), Some(c)) => consumable_used(before, after, ctx.room_id@, f@, c@, ok),
            _ => !ok && after == before,
        },
        CommandEffect::DropItem => after == before && ok == (item.len() > 0 && before.spec_item_count(item) > 0),
        CommandEffect::PickUpItem => after == before
            && ok == (item.len() > 0 && before.spec_item_count_in_storage(item, ItemStorageTarget::CurrentRoom, ctx.room_id@) > 0),
        CommandEffect::EquipItem => after == before && ok == (content.has_item(item) && {
            let def = content.spec_item(item);
            &&& def.spec_is_equippable()
            &&& before.spec_item_count(item) > 0
            &&& forall|i: int| 0 <= i < def.spec_occupied_slots().len() ==>
                content.settings.equipment_slots@.map_values(|s: String| s@).contains(#[trigger] def.spec_occupied_slots()[i])
            &&& !is_equipped(&before, item)
        }),
        CommandEffect::UnequipItem => after == before && ok == (content.has_item(item) && is_equipped(&before, item)),
        CommandEffect::UseItem => after == before
            && ok == (content.has_item(item) && content.spec_item(item).use_hook@.len() > 0 && before.spec_item_count(item) > 0),
        CommandEffect::AttackTarget => after == before && ok == match ctx.target_actor_id {
            Some(t) => content.has_actor(t@) && content.spec_actor(t@).attackable
                && before.spec_actor_stat(t@, content.settings.combat.health_stat_id@) > 0
                && before.spec_relationship(t@).stance != ActorStance::Allied,
            None => false,
        },
        _ => after == before && ok,
    }
}

/// Whether using a command runs from `before` to `after` through the worlds
/// of `trace` with result `r`: when the command needs an item that is not at
/// hand nothing happens and it fails; otherwise its effects take place in
/// order, each from where the last left the world, until one cannot (and the
/// command fails there) or all have (and it succeeds).
pub open spec fn realization(content: &ContentPack, ctx: ActorCommandContext, command: ActionDefinition, before: WorldState,
    trace: Seq<WorldState>, after: WorldState, r: bool) -> bool {
    let effects = command.effects@;
    let n = trace.len() - 1;
    let item_missing = match command.available.requires_item {
        Some(item) => before.spec_item_count_in_storage(item@, to_storage(command.available.requires_item_storage), ctx.room_id@) == 0,
        None => false,
    };
    &&& trace.len() >= 1
    &&& trace[0] == before
    &&& item_missing ==> !r && trace.len() == 1 && after == before
    &&& !item_missing ==> {
        &&& n <= effects.len()
        &&& forall|j: int| 0 <= j < n ==> #[trigger] effect_realized(content, ctx, command, effects[j], trace[j], trace[j + 1], true)
        &&& r ==> n == effects.len() && after == trace[n]
        &&& !r ==> n < effects.len() && effect_realized(content, ctx, command, effects[n], trace[n], after, false)
    }
}

/// Checks and carries out the effects of a command an actor uses (see
/// `realization`); returns whether all of them took place.
pub fn apply_actor_command_realization_effects(state: &mut WorldState, content: &ContentPack, command: &ActionDefinition,
    context: &ActorCommandContext) -> (r: bool)
    requires
        old(state).wf(),
        content.wf(),
    ensures
        final(state).wf(),
        exists|trace: Seq<WorldState>| #[trigger] realization(content, *context, *command, *old(state), trace, *final(state), r),
{
    let ghost mut trace: Seq<WorldState> = seq![*state];
    match &command.available.requires_item {
        Some(item_id) => {
            let storage = to_item_storage(command.available.requires_item_storage);
            if !state.has_item_in_storage(item_id.as_str(), storage, context.room_id) {
                assert(realization(content, *context, *command, *old(state), trace, *state, false));
                return false;
            }
        },
        None => {},
    }
    let mut i: usize = 0;
    while i < command.effects.len()
        invariant
            state.wf(),
            content.wf(),
            i <= command.effects.len(),
            trace.len() == i + 1,
            trace[0] == *old(state),
            trace[i as int] == *state,
            match command.available.requires_item {
                Some(item) => old(state).spec_item_count_in_storage(item@, to_storage(command.available.requires_item_storage),
                    context.room_id@) > 0,
                None => true,
            },
            forall|j: int| 0 <= j < i ==> #[trigger] effect_realized(content, *context, *command, command.effects@[j], trace[j], trace[j + 1], true),
        decreases command.effects.len() - i,
    {
        let ghost before = *state;
        let ok = realize_effect(state, content, command, context, command.effects[i]);
        if !ok {
            assert(realization(content, *context, *command, *old(state), trace, *state, false));
            return false;
        }
        proof {
            let prev = trace;
            trace = trace.push(*state);
            assert forall|j: int| 0 <= j < i + 1 implies #[trigger] effect_realized(content, *context, *command, command.effects@[j],
                trace[j], trace[j + 1], true) by {
                if j < i {
                    assert(trace[j] == prev[j] && trace[j + 1] == prev[j + 1]);
                }
            }
        }
        i = i + 1;
    }
    assert(realization(content, *context, *command, *old(state), trace, *state, true));
    true
}

/// One effect of a command (see `effect_realized`).
fn realize_effect(state: &mut WorldState, content: &ContentPack, command: &ActionDefinition, context: &ActorCommandContext,
    effect: CommandEffect) -> (ok: bool)
    requires
        old(state).wf(),
        content.wf(),
    ensures
        final(state).wf(),
        effect_realized(content, *context, *command, effect, *old(state), *final(state), ok),
{
    let item = command.item_id.as_str();
    match effect {
        CommandEffect::ObserveFeature => {
            let feature_id = match context.feature_id {
                Some(f) => f,
                None => return false,
            };
            let feature = match find_feature(content, context.room_id, feature_id) {
                Some(f) => f,
                None => return false,
            };
            state.mark_actor_feature_seen(context.actor_id, context.room_id, feature_id);
            state.push_actor_observation_note(context.actor_id, feature.inspect_text.clone());
            true
        },
        CommandEffect::ObserveActor => {
            let target = match context.target_actor_id {
                Some(t) => t,
                None => return false,
            };
            let actor = match content.actor(target) {
                Some(a) => a,
                None => return false,
            };
            state.mark_actor_studied_actor(context.actor_id, target);
            state.push_actor_observation_note(context.actor_id, actor.inspect_text.clone());
            true
        },
        CommandEffect::ConsumeTargetedConsumable => {
            let (feature_id, consumable_id) = match (context.feature_id, context.consumable_id) {
                (Some(f), Some(c)) => (f, c),
                _ => return false,
            };
            if state.consume_feature_consumable(context.room_id, feature_id, consumable_id) {
                return true;
            }
            state.remove_item_from_storage(consumable_id, ItemStorageTarget::CurrentRoom, context.room_id)
        },
        CommandEffect::DropItem => item.unicode_len() > 0 && state.has_item(item),
        CommandEffect::PickUpItem => item.unicode_len() > 0
            && state.has_item_in_storage(item, ItemStorageTarget::CurrentRoom, context.room_id),
        CommandEffect::EquipItem => {
            let def = match content.item(item) {
                Some(d) => d,
                None => return false,
            };
            if !def.is_equippable() || !state.has_item(item) {
                return false;
            }
            let slots = def.occupied_slots();
            let mut i: usize = 0;
            while i < slots.len()
                invariant
                    i <= slots.len(),
                    *state == *old(state),
                    state.wf(),
                    content.wf(),
                    effect == CommandEffect::EquipItem,
                    item@ == command.item_id@,
                    content.has_item(item@),
                    *def == content.spec_item(item@),
                    def.spec_is_equippable(),
                    state.spec_item_count(item@) > 0,
                    slots@.map_values(|s: String| s@) == def.spec_occupied_slots(),
                    forall|q: int| 0 <= q < i ==> content.settings.equipment_slots@.map_values(|s: String| s@)
                        .contains(#[trigger] def.spec_occupied_slots()[q]),
                decreases slots.len() - i,
            {
                if !crate::reducer::beat_advance::list_contains(&content.settings.equipment_slots, slots[i].as_str()) {
                    assert(slots@[i as int]@ == def.spec_occupied_slots()[i as int]);
                    return false;
                }
                assert(slots@[i as int]@ == def.spec_occupied_slots()[i as int]);
                i = i + 1;
            }
            !item_is_worn(state, item)
        },
        CommandEffect::UnequipItem => {
            match content.item(item) {
                Some(_) => item_is_worn(state, item),
                None => false,
            }
        },
        CommandEffect::UseItem => {
            match content.item(item) {
                Some(def) => def.use_hook.as_str().unicode_len() > 0 && state.has_item(item),
                None => false,
            }
        },
        CommandEffect::AttackTarget => {
            let target = match context.target_actor_id {
                Some(t) => t,
                None => return false,
            };
            match content.actor(target) {
                Some(a) => a.attackable
                    && state.actor_stat(target, content.settings.combat.health_stat_id.as_str()) > 0
                    && state.stance(target) != ActorStance::Allied,
                None => false,
            }
        },
        _ => true,
    }
}

} // verus!

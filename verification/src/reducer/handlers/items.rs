use vstd::prelude::*;
use crate::content::{ContentPack, ItemStorageTarget};
use crate::narrative::{NarrativeLineKind, NarrativeLines};
use crate::reducer::feedback::{message_seq, push_message};
use crate::state::WorldState;
use crate::state::inventory::{room_item_key, stock_after_take, charges_after_take, took_one};

verus! {

/// How an item is named in messages: its label, or its id when the pack
/// does not know it.
pub open spec fn item_label(content: &ContentPack, item_id: Seq<char>) -> Seq<char> {
    if content.has_item(item_id) { content.spec_item(item_id).label@ } else { item_id }
}

fn label_of<'a>(content: &'a ContentPack, item_id: &'a str) -> (r: &'a str)
    ensures
        r@ == item_label(content, item_id@),
{
    match content.item(item_id) {
        Some(item) => item.label.as_str(),
        None => item_id,
    }
}

/// The message that tells of an item being used up: the player's own, the
/// named consumer's, or a plain one.
pub open spec fn consumed_message(content: &ContentPack, item_id: Seq<char>, consumer_id: Option<Seq<char>>,
    consumer_name: Option<Seq<char>>) -> Seq<(NarrativeLineKind, Seq<char>)>
{
    let label = item_label(content, item_id);
    if consumer_id == Some(content.settings.combat.player_actor_id@) {
        message_seq(content, "item.consumed_player"@, seq![("label"@, label)])
    } else {
        match consumer_name {
            Some(name) => message_seq(content, "item.consumed_actor"@, seq![("consumer_name"@, name), ("label"@, label)]),
            None => message_seq(content, "item.consumed_use"@, seq![("label"@, label)]),
        }
    }
}

pub open spec fn opt_str(s: Option<&str>) -> Option<Seq<char>> {
    match s {
        Some(x) => Some(x@),
        None => None,
    }
}

/// Uses up one of an item from the given storage, telling who used it;
/// nothing is told when there was none to use.
pub fn handle_item_consumed(state: &mut WorldState, content: &ContentPack, item_id: &str, storage: ItemStorageTarget,
    consumer_id: Option<&str>, consumer_name: Option<&str>, lines: &mut NarrativeLines)
    requires
        old(state).wf(),
        content.wf(),
    ensures
        final(state).wf(),
        took_one(&*old(state), &*final(state), item_id@, storage, old(state).current_room_id@),
        final(state).current_room_id == old(state).current_room_id,
        old(state).spec_item_count_in_storage(item_id@, storage, old(state).current_room_id@) > 0
            ==> final(lines).views() == old(lines).views() + consumed_message(content, item_id@, opt_str(consumer_id), opt_str(consumer_name)),
        old(state).spec_item_count_in_storage(item_id@, storage, old(state).current_room_id@) == 0
            ==> final(lines).views() == old(lines).views(),
{
    let label = label_of(content, item_id);
    let room_id = state.current_room_id.clone();
    if state.remove_item_from_storage(item_id, storage, room_id.as_str()) {
        let is_player = match consumer_id {
            Some(id) => crate::text::str_eq(id, content.settings.combat.player_actor_id.as_str()),
            None => false,
        };
        if is_player {
            let pairs: Vec<(&str, &str)> = vec![("label", label)];
            push_message(lines, content, "item.consumed_player", pairs.as_slice());
            assert(crate::text::pair_views(pairs@) =~= seq![("label"@, label@)]);
        } else {
            match consumer_name {
                Some(name) => {
                    let pairs: Vec<(&str, &str)> = vec![("consumer_name", name), ("label", label)];
                    push_message(lines, content, "item.consumed_actor", pairs.as_slice());
                    assert(crate::text::pair_views(pairs@) =~= seq![("consumer_name"@, name@), ("label"@, label@)]);
                },
                None => {
                    let pairs: Vec<(&str, &str)> = vec![("label", label)];
                    push_message(lines, content, "item.consumed_use", pairs.as_slice());
                    assert(crate::text::pair_views(pairs@) =~= seq![("label"@, label@)]);
                },
            }
        }
    }
}

/// Whether the pack forbids taking an item up.
pub open spec fn take_denied(content: &ContentPack, item_id: Seq<char>) -> bool {
    content.has_item(item_id) && !content.spec_item(item_id).takeable
}

/// Moves one of a loose item from the current room into the player's
/// inventory and says so; an item the pack will not let be taken stays,
/// with a refusal, and an item not lying there is passed over in silence.
pub fn handle_player_took_item(state: &mut WorldState, content: &ContentPack, item_id: &str, lines: &mut NarrativeLines)
    requires
        old(state).wf(),
        content.wf(),
        old(state).spec_item_count(item_id@) < u32::MAX,
    ensures
        final(state).wf(),
        final(state).current_room_id == old(state).current_room_id,
        take_denied(content, item_id@) ==> *final(state) == *old(state)
            && final(lines).views() == old(lines).views() + message_seq(content, "item.takedenied"@, seq![("label"@, item_label(content, item_id@))]),
        !take_denied(content, item_id@) ==> ({
            let k = room_item_key(old(state).current_room_id@, item_id@);
            let took = old(state).spec_item_count_in_storage(item_id@, ItemStorageTarget::CurrentRoom, old(state).current_room_id@) > 0;
            &&& final(state).room_item_stock@ == stock_after_take(old(state).room_item_stock@, k)
            &&& final(state).room_item_charges@ == charges_after_take(old(state).room_item_stock@, old(state).room_item_charges@, k)
            &&& final(state).player_inventory@ == if took {
                    old(state).player_inventory@.insert(item_id@, (old(state).spec_item_count(item_id@) + 1) as u32)
                } else {
                    old(state).player_inventory@
                }
            &&& final(state).equipment == old(state).equipment
            &&& final(state).story_vars == old(state).story_vars
            &&& final(state).actor_stats == old(state).actor_stats
            &&& final(state).relationships == old(state).relationships
            &&& final(lines).views() == old(lines).views()
                + if took { message_seq(content, "item.taken"@, seq![("label"@, item_label(content, item_id@))]) } else { Seq::empty() }
        }),
{
    let label = label_of(content, item_id);
    let room_id = state.current_room_id.clone();
    let denied = match content.item(item_id) {
        Some(item) => !item.is_takeable(),
        None => false,
    };
    let pairs: Vec<(&str, &str)> = vec![("label", label)];
    assert(crate::text::pair_views(pairs@) =~= seq![("label"@, label@)]);
    if denied {
        push_message(lines, content, "item.takedenied", pairs.as_slice());
        return;
    }
    if state.remove_item_from_storage(item_id, ItemStorageTarget::CurrentRoom, room_id.as_str()) {
        state.add_item(item_id);
        push_message(lines, content, "item.taken", pairs.as_slice());
    } else {
        assert(old(lines).views() + Seq::<(NarrativeLineKind, Seq<char>)>::empty() =~= old(lines).views());
    }
}

/// Tells what an item looks like, or that the pack does not know it.
pub fn handle_item_observed(_state: &mut WorldState, content: &ContentPack, item_id: &str, lines: &mut NarrativeLines)
    ensures
        *final(_state) == *old(_state),
        final(lines).views() == old(lines).views().push((NarrativeLineKind::Narration,
            if content.has_item(item_id@) { content.spec_item(item_id@).description@ } else { content.presentation.error_text.feature_unknown@ })),
{
    let text = match content.item(item_id) {
        Some(item) => item.description.clone(),
        None => content.presentation.error_text.feature_unknown.clone(),
    };
    let ghost t = text@;
    lines.narration(text);
    assert(lines.views() =~= old(lines).views().push((NarrativeLineKind::Narration, t)));
}

} // verus!

use vstd::prelude::*;
use crate::content::{ActorDefinition, ContentPack, PanelDataSource, ItemStorageTarget, RoomDefinition, RoomExitDefinition, RoomFeatureDefinition};
use crate::reducer::beat_advance::list_contains;
use crate::reducer::observation::loose_view;
use crate::state::WorldState;
use crate::state::appointments::{display_actor_name, spec_display_actor_name};
use crate::state::inventory::{consumable_key, count_in};
use crate::text::{cat, str_eq, string_of};
use crate::turn_policies::{spec_story_var_is_truthy, story_var_is_truthy};

verus! {

/// One entry of a menu panel: what it is, how it reads, the command it
/// sends, and the text shown beside it in a menu.
pub struct PanelOption {
    pub id: String,
    pub title: String,
    pub command: String,
    pub menu_text: String,
}

/// A panel entry as text: id, title, command, menu text.
pub type PanelView = (Seq<char>, Seq<char>, Seq<char>, Seq<char>);

pub open spec fn panel_view(o: PanelOption) -> PanelView {
    (o.id@, o.title@, o.command@, o.menu_text@)
}

pub open spec fn panel_views(v: Seq<PanelOption>) -> Seq<PanelView> {
    v.map_values(|o: PanelOption| panel_view(o))
}

proof fn lemma_take_map_push<A, B>(s: Seq<A>, i: int, f: spec_fn(A) -> B)
    requires
        0 <= i < s.len(),
    ensures
        s.take(i + 1).map_values(f) == s.take(i).map_values(f).push(f(s[i])),
{
    assert(s.take(i + 1).map_values(f) =~= s.take(i).map_values(f).push(f(s[i])));
}

fn entry(id: String, title: String, command: String, menu_text: String) -> (r: PanelOption)
    ensures
        panel_view(r) == (id@, title@, command@, menu_text@),
{
    PanelOption { id, title, command, menu_text }
}

fn push_entry(out: &mut Vec<PanelOption>, o: PanelOption)
    ensures
        panel_views(final(out)@) == panel_views(old(out)@).push(panel_view(o)),
{
    let ghost before = out@;
    out.push(o);
    assert(panel_views(out@) =~= panel_views(before).push(panel_view(o)));
}

// ---------------------------------------------------------------- actors

/// A living actor other than the player that stands in the current room.
pub open spec fn in_room_actor(content: &ContentPack, state: &WorldState, a: ActorDefinition) -> bool {
    &&& !content.spec_is_player_actor(a.id@)
    &&& state.spec_actor_room_id(a.id@, a.room_id@) == state.current_room_id@
    &&& !state.spec_actor_is_defeated(a.id@, content.settings.combat.health_stat_id@)
}

/// The actors among the first `n` of the pack that stand in the current
/// room, in pack order.
pub open spec fn in_room_actors(content: &ContentPack, state: &WorldState, n: int) -> Seq<ActorDefinition>
    decreases n,
{
    if n <= 0 {
        Seq::empty()
    } else {
        let prev = in_room_actors(content, state, n - 1);
        let a = content.actors@[n - 1];
        if in_room_actor(content, state, a) { prev.push(a) } else { prev }
    }
}

pub open spec fn present_actors(content: &ContentPack, state: &WorldState) -> Seq<ActorDefinition> {
    in_room_actors(content, state, content.actors.len() as int)
}

fn in_room_actor_ids<'a>(content: &'a ContentPack, state: &WorldState) -> (r: Vec<&'a ActorDefinition>)
    requires
        state.wf(),
    ensures
        r@.map_values(|a: &ActorDefinition| *a) == present_actors(content, state),
{
    let mut out: Vec<&'a ActorDefinition> = Vec::new();
    let mut i: usize = 0;
    while i < content.actors.len()
        invariant
            state.wf(),
            i <= content.actors.len(),
            out@.map_values(|a: &ActorDefinition| *a) == in_room_actors(content, state, i as int),
        decreases content.actors.len() - i,
    {
        let actor = &content.actors[i];
        if !content.is_player_actor(actor.id.as_str())
            && str_eq(state.actor_room_id(actor.id.as_str(), actor.room_id.as_str()), state.current_room_id.as_str())
            && !state.actor_is_defeated(actor.id.as_str(), content.settings.combat.health_stat_id.as_str()) {
            let ghost before = out@;
            out.push(actor);
            assert(out@.map_values(|a: &ActorDefinition| *a) =~= before.map_values(|a: &ActorDefinition| *a).push(*actor));
        }
        i = i + 1;
    }
    out
}

/// The talk entry for an actor: it reads and is listed by its name.
pub open spec fn talk_view(state: &WorldState, a: ActorDefinition) -> PanelView {
    ("actor:"@ + a.id@, spec_display_actor_name(state, &a), "talk to "@ + a.id@, spec_display_actor_name(state, &a))
}

/// The actors panel: one talk entry per actor present.
pub open spec fn actors_panel(content: &ContentPack, state: &WorldState) -> Seq<PanelView> {
    present_actors(content, state).map_values(|a: ActorDefinition| talk_view(state, a))
}

fn room_actors_panel_options(content: &ContentPack, state: &WorldState) -> (r: Vec<PanelOption>)
    requires
        state.wf(),
    ensures
        panel_views(r@) == actors_panel(content, state),
{
    let actors = in_room_actor_ids(content, state);
    let ghost pa = present_actors(content, state);
    let mut out: Vec<PanelOption> = Vec::new();
    let mut i: usize = 0;
    while i < actors.len()
        invariant
            state.wf(),
            i <= actors.len(),
            actors@.map_values(|a: &ActorDefinition| *a) == pa,
            panel_views(out@) == pa.take(i as int).map_values(|a: ActorDefinition| talk_view(state, a)),
        decreases actors.len() - i,
    {
        let actor = actors[i];
        assert(pa[i as int] == *actor);
        let name = display_actor_name(state, actor);
        let o = entry(cat("actor:", actor.id.as_str()), name.clone(), cat("talk to ", actor.id.as_str()), name);
        push_entry(&mut out, o);
        proof { lemma_take_map_push(pa, i as int, |a: ActorDefinition| talk_view(state, a)); }
        i = i + 1;
    }
    assert(pa.take(actors.len() as int) =~= pa);
    out
}

// ----------------------------------------------------------------- exits

/// Whether an exit shows: it needs no story variable, or its variable is
/// truthy.
pub open spec fn exit_shows(state: &WorldState, e: RoomExitDefinition) -> bool {
    e.requires_story_var@.len() == 0 || spec_story_var_is_truthy(state, e.requires_story_var@)
}

/// The destinations of the first `n` exits that show, in exit order.
pub open spec fn shown_exit_ids(state: &WorldState, exits: Seq<RoomExitDefinition>, n: int) -> Seq<Seq<char>>
    decreases n,
{
    if n <= 0 {
        Seq::empty()
    } else {
        let prev = shown_exit_ids(state, exits, n - 1);
        if exit_shows(state, exits[n - 1]) { prev.push(exits[n - 1].room_id@) } else { prev }
    }
}

/// The rooms among the first `n` of the pack that can be switched to: any
/// room when the pack lets the player surf freely, otherwise those that a
/// shown exit leads to; in pack order.
pub open spec fn switchable_rooms(content: &ContentPack, ids: Seq<Seq<char>>, n: int) -> Seq<RoomDefinition>
    decreases n,
{
    if n <= 0 {
        Seq::empty()
    } else {
        let prev = switchable_rooms(content, ids, n - 1);
        let room = content.rooms@[n - 1];
        if content.settings.channel_surfing_only || ids.contains(room.id@) { prev.push(room) } else { prev }
    }
}

/// The index of the first of the first `n` exits that leads to `room_id`,
/// or -1.
pub open spec fn first_exit_index(exits: Seq<RoomExitDefinition>, room_id: Seq<char>, n: int) -> int
    decreases n,
{
    if n <= 0 {
        -1
    } else {
        let prev = first_exit_index(exits, room_id, n - 1);
        if prev >= 0 { prev } else if exits[n - 1].room_id@ == room_id { n - 1 } else { -1 }
    }
}

/// How a destination reads from `current`: the menu label of the first
/// exit leading there, if it has one, otherwise the room's title.
pub open spec fn exit_title(current: RoomDefinition, room: RoomDefinition) -> Seq<char> {
    let i = first_exit_index(current.exits@, room.id@, current.exits.len() as int);
    if i >= 0 {
        match current.exits@[i].menu_label {
            Some(l) => l@,
            None => room.title@,
        }
    } else {
        room.title@
    }
}

pub open spec fn exit_view(current: RoomDefinition, room: RoomDefinition) -> PanelView {
    (room.id@, exit_title(current, room), room.id@, exit_title(current, room))
}

/// The exits panel for the room `here`: one entry per room that can be
/// switched to; nothing for an unknown room.
pub open spec fn exits_panel(content: &ContentPack, state: &WorldState, here: Seq<char>) -> Seq<PanelView> {
    if content.has_room(here) {
        let current = content.spec_room(here);
        let ids = shown_exit_ids(state, current.exits@, current.exits.len() as int);
        switchable_rooms(content, ids, content.rooms.len() as int).map_values(|room: RoomDefinition| exit_view(current, room))
    } else {
        Seq::empty()
    }
}

fn exit_title_of(current: &RoomDefinition, room: &RoomDefinition) -> (r: String)
    ensures
        r@ == exit_title(*current, *room),
{
    let mut i: usize = 0;
    while i < current.exits.len()
        invariant
            i <= current.exits.len(),
            first_exit_index(current.exits@, room.id@, i as int) == -1,
        decreases current.exits.len() - i,
    {
        if str_eq(current.exits[i].room_id.as_str(), room.id.as_str()) {
            let ghost k = i as int;
            assert(first_exit_index(current.exits@, room.id@, k + 1) == k);
            assert forall|m: int| k + 1 <= m <= current.exits.len() implies first_exit_index(current.exits@, room.id@, m) == k by {
                lemma_first_exit_stays(current.exits@, room.id@, k + 1, m);
            }
            return match &current.exits[i].menu_label {
                Some(l) => l.clone(),
                None => room.title.clone(),
            };
        }
        i = i + 1;
    }
    room.title.clone()
}

proof fn lemma_first_exit_stays(exits: Seq<RoomExitDefinition>, room_id: Seq<char>, a: int, b: int)
    requires
        0 <= a <= b,
        first_exit_index(exits, room_id, a) >= 0,
    ensures
        first_exit_index(exits, room_id, b) == first_exit_index(exits, room_id, a),
    decreases b - a,
{
    if a < b {
        lemma_first_exit_stays(exits, room_id, a, b - 1);
    }
}

fn room_exit_panel_options(content: &ContentPack, state: &WorldState, current_room_id: &str) -> (r: Vec<PanelOption>)
    requires
        state.wf(),
    ensures
        panel_views(r@) == exits_panel(content, state, current_room_id@),
{
    let current = match content.room(current_room_id) {
        Some(room) => room,
        None => return Vec::new(),
    };
    let mut exit_ids: Vec<String> = Vec::new();
    let mut i: usize = 0;
    while i < current.exits.len()
        invariant
            state.wf(),
            i <= current.exits.len(),
            exit_ids@.map_values(|s: String| s@) == shown_exit_ids(state, current.exits@, i as int),
        decreases current.exits.len() - i,
    {
        let e = &current.exits[i];
        if e.requires_story_var.as_str().is_empty() || story_var_is_truthy(state, e.requires_story_var.as_str()) {
            let ghost before = exit_ids@;
            let id = e.room_id.clone();
            exit_ids.push(id);
            assert(exit_ids@.map_values(|s: String| s@) =~= before.map_values(|s: String| s@).push(e.room_id@));
        }
        i = i + 1;
    }
    let ghost ids = shown_exit_ids(state, current.exits@, current.exits.len() as int);
    let mut out: Vec<PanelOption> = Vec::new();
    let mut j: usize = 0;
    while j < content.rooms.len()
        invariant
            j <= content.rooms.len(),
            exit_ids@.map_values(|s: String| s@) == ids,
            panel_views(out@) == switchable_rooms(content, ids, j as int).map_values(|room: RoomDefinition| exit_view(*current, room)),
        decreases content.rooms.len() - j,
    {
        let room = &content.rooms[j];
        let ghost before = switchable_rooms(content, ids, j as int);
        if content.settings.channel_surfing_only || list_contains(&exit_ids, room.id.as_str()) {
            let title = exit_title_of(current, room);
            let o = entry(room.id.clone(), title.clone(), room.id.clone(), title);
            push_entry(&mut out, o);
            assert(before.push(*room).map_values(|r: RoomDefinition| exit_view(*current, r))
                =~= before.map_values(|r: RoomDefinition| exit_view(*current, r)).push(exit_view(*current, *room)));
        }
        j = j + 1;
    }
    out
}

// -------------------------------------------------------------- features

/// The word a feature is examined by: its first alias, otherwise its label.
pub open spec fn feature_alias(f: RoomFeatureDefinition) -> Seq<char> {
    if f.aliases.len() > 0 { f.aliases@[0]@ } else { f.label@ }
}

pub open spec fn feature_view(f: RoomFeatureDefinition) -> PanelView {
    ("feature:"@ + f.id@, f.label@, "x "@ + feature_alias(f), Seq::empty())
}

/// The features panel for the room `here`: one entry per feature, in the
/// room's order; nothing for an unknown room.
pub open spec fn features_panel(content: &ContentPack, here: Seq<char>) -> Seq<PanelView> {
    if content.has_room(here) {
        content.spec_room(here).features@.map_values(|f: RoomFeatureDefinition| feature_view(f))
    } else {
        Seq::empty()
    }
}

fn push_feature_entries(out: &mut Vec<PanelOption>, room: &RoomDefinition)
    ensures
        panel_views(final(out)@) == panel_views(old(out)@) + room.features@.map_values(|f: RoomFeatureDefinition| feature_view(f)),
{
    let ghost start = panel_views(out@);
    let mut i: usize = 0;
    while i < room.features.len()
        invariant
            i <= room.features.len(),
            panel_views(out@) == start + room.features@.take(i as int).map_values(|f: RoomFeatureDefinition| feature_view(f)),
        decreases room.features.len() - i,
    {
        let f = &room.features[i];
        let alias: &str = if f.aliases.len() > 0 { f.aliases[0].as_str() } else { f.label.as_str() };
        let o = entry(cat("feature:", f.id.as_str()), f.label.clone(), cat("x ", alias), String::new());
        push_entry(out, o);
        proof { lemma_take_map_push(room.features@, i as int, |f: RoomFeatureDefinition| feature_view(f)); }
        i = i + 1;
    }
    assert(room.features@.take(room.features.len() as int) =~= room.features@);
}

fn current_room_feature_panel_options(content: &ContentPack, current_room_id: &str) -> (r: Vec<PanelOption>)
    ensures
        panel_views(r@) == features_panel(content, current_room_id@),
{
    let mut out: Vec<PanelOption> = Vec::new();
    match content.room(current_room_id) {
        Some(room) => {
            push_feature_entries(&mut out, room);
            assert(panel_views(out@) =~= features_panel(content, current_room_id@));
        },
        None => {},
    }
    out
}

// ----------------------------------------------------------- loose items

/// A loose item that can be taken: the pack knows it and lets it be taken.
pub open spec fn takeable_loose(content: &ContentPack, id: Seq<char>) -> bool {
    content.has_item(id) && content.spec_item(id).takeable
}

/// Take entries for the first `n` loose items that can be taken.
pub open spec fn take_views(content: &ContentPack, loose: Seq<(Seq<char>, u32)>, n: int) -> Seq<PanelView>
    decreases n,
{
    if n <= 0 {
        Seq::empty()
    } else {
        let prev = take_views(content, loose, n - 1);
        let id = loose[n - 1].0;
        if takeable_loose(content, id) {
            prev.push((id, content.spec_item(id).label@, "take "@ + id, Seq::empty()))
        } else {
            prev
        }
    }
}

/// The loose items panel for the room `here`, in the order the room holds
/// them.
pub open spec fn loose_panel(content: &ContentPack, state: &WorldState, here: Seq<char>) -> Seq<PanelView> {
    let loose = loose_view(state, here);
    take_views(content, loose, loose.len() as int)
}

fn loose_item_panel_options(content: &ContentPack, state: &WorldState, current_room_id: &str) -> (r: Vec<PanelOption>)
    requires
        state.wf(),
    ensures
        panel_views(r@) == loose_panel(content, state, current_room_id@),
{
    let loose = state.loose_room_items(current_room_id);
    let ghost lv = loose@.map_values(|e: (String, u32)| (e.0@, e.1));
    assert(lv == loose_view(state, current_room_id@));
    let mut out: Vec<PanelOption> = Vec::new();
    let mut i: usize = 0;
    while i < loose.len()
        invariant
            i <= loose.len(),
            lv == loose@.map_values(|e: (String, u32)| (e.0@, e.1)),
            panel_views(out@) == take_views(content, lv, i as int),
        decreases loose.len() - i,
    {
        let id = loose[i].0.as_str();
        assert(lv[i as int].0 == id@);
        match content.item(id) {
            Some(item) => {
                if item.is_takeable() {
                    let o = entry(string_of(id), item.label.clone(), cat("take ", id), String::new());
                    push_entry(&mut out, o);
                }
            },
            None => {},
        }
        i = i + 1;
    }
    out
}

// ------------------------------------------------------------- inventory

/// Whether some equipment slot holds the item.
pub open spec fn is_equipped(state: &WorldState, id: Seq<char>) -> bool {
    exists|k: Seq<char>| #[trigger] state.equipment@.dom().contains(k) && state.equipment@[k]@ == id
}

/// How an item reads: its label, or its id when the pack does not know it.
pub open spec fn item_title(content: &ContentPack, id: Seq<char>) -> Seq<char> {
    if content.has_item(id) { content.spec_item(id).label@ } else { id }
}

/// Drop entries for the first `n` inventory entries that are held and not
/// worn.
pub open spec fn drop_views(content: &ContentPack, state: &WorldState, ids: Seq<Seq<char>>, counts: Seq<u32>, n: int) -> Seq<PanelView>
    decreases n,
{
    if n <= 0 {
        Seq::empty()
    } else {
        let prev = drop_views(content, state, ids, counts, n - 1);
        let id = ids[n - 1];
        if counts[n - 1] > 0 && !is_equipped(state, id) {
            prev.push((id, item_title(content, id), "drop "@ + id, Seq::empty()))
        } else {
            prev
        }
    }
}

/// The inventory panel: the carried items that are not worn, in ascending
/// id order.
pub open spec fn inventory_panel(content: &ContentPack, state: &WorldState) -> Seq<PanelView> {
    let inv = state.player_inventory;
    drop_views(content, state, inv.key_seq(), inv.val_seq(), inv.key_seq().len() as int)
}

pub fn item_is_worn(state: &WorldState, id: &str) -> (r: bool)
    requires
        state.wf(),
    ensures
        r == is_equipped(state, id@),
{
    let eq = &state.equipment;
    proof { eq.lemma_contents(); }
    let mut i: usize = 0;
    while i < eq.len()
        invariant
            state.wf(),
            eq == &state.equipment,
            i <= eq.key_seq().len(),
            eq.key_seq().len() == eq.val_seq().len(),
            forall|j: int| 0 <= j < i ==> (#[trigger] eq.val_seq()[j])@ != id@,
        decreases eq.key_seq().len() - i,
    {
        let v = eq.value_at(i);
        if str_eq(v.as_str(), id) {
            proof {
                eq.lemma_contents();
                assert(eq@.dom().contains(eq.key_seq()[i as int]));
            }
            return true;
        }
        i = i + 1;
    }
    proof {
        eq.lemma_contents();
        assert forall|k: Seq<char>| #[trigger] eq@.dom().contains(k) implies eq@[k]@ != id@ by {
            let j = choose|j: int| 0 <= j < eq.key_seq().len() && eq.key_seq()[j] == k;
            assert(eq@[eq.key_seq()[j]] == eq.val_seq()[j]);
        }
    }
    false
}

fn inventory_panel_options(content: &ContentPack, state: &WorldState) -> (r: Vec<PanelOption>)
    requires
        state.wf(),
    ensures
        panel_views(r@) == inventory_panel(content, state),
{
    let inv = &state.player_inventory;
    proof { inv.lemma_contents(); }
    let mut out: Vec<PanelOption> = Vec::new();
    let mut i: usize = 0;
    while i < inv.len()
        invariant
            state.wf(),
            inv == &state.player_inventory,
            i <= inv.key_seq().len(),
            inv.key_seq().len() == inv.val_seq().len(),
            panel_views(out@) == drop_views(content, state, inv.key_seq(), inv.val_seq(), i as int),
        decreases inv.key_seq().len() - i,
    {
        let key = inv.key_at(i);
        let count = *inv.value_at(i);
        let id = crate::text::string_from_chars(key);
        if count > 0 && !item_is_worn(state, id.as_str()) {
            let title = match content.item(id.as_str()) {
                Some(item) => item.label.clone(),
                None => id.clone(),
            };
            let o = entry(id.clone(), title, cat("drop ", id.as_str()), String::new());
            push_entry(&mut out, o);
        }
        i = i + 1;
    }
    out
}

// ---------------------------------------------------------------- panels

/// The entries of a panel, by what it lists.
pub open spec fn panel(content: &ContentPack, state: &WorldState, source: PanelDataSource) -> Seq<PanelView> {
    let here = state.current_room_id@;
    match source {
        PanelDataSource::ActorsInRoom => actors_panel(content, state),
        PanelDataSource::Exits => exits_panel(content, state, here),
        PanelDataSource::Features => features_panel(content, here),
        PanelDataSource::LooseRoomItems => loose_panel(content, state, here),
        PanelDataSource::InventoryItems => inventory_panel(content, state),
        PanelDataSource::CraftableItems => Seq::empty(),
    }
}

/// Builds the entries of a session panel from what it lists.
pub fn panel_options(content: &ContentPack, state: &WorldState, data_source: PanelDataSource) -> (r: Vec<PanelOption>)
    requires
        state.wf(),
    ensures
        panel_views(r@) == panel(content, state, data_source),
{
    let here = state.current_room_id.as_str();
    match data_source {
        PanelDataSource::ActorsInRoom => room_actors_panel_options(content, state),
        PanelDataSource::Exits => room_exit_panel_options(content, state, here),
        PanelDataSource::Features => current_room_feature_panel_options(content, here),
        PanelDataSource::LooseRoomItems => loose_item_panel_options(content, state, here),
        PanelDataSource::InventoryItems => inventory_panel_options(content, state),
        PanelDataSource::CraftableItems => {
            let r: Vec<PanelOption> = Vec::new();
            assert(panel_views(r@) =~= Seq::<PanelView>::empty());
            r
        },
    }
}

// ------------------------------------------------------- interactables

/// Whether one of the first `m` consumables of feature `f` of the room
/// `here` is the item and still has stock.
pub open spec fn stocked_in_feature(state: &WorldState, here: Seq<char>, f: RoomFeatureDefinition, item_id: Seq<char>, m: int) -> bool
    decreases m,
{
    if m <= 0 {
        false
    } else {
        stocked_in_feature(state, here, f, item_id, m - 1)
            || (f.consumables@[m - 1].id@ == item_id
                && count_in(state.feature_consumable_stock@, consumable_key(here, f.id@, item_id)) > 0)
    }
}

/// Whether a consumable of one of the first `n` features is the item and
/// still has stock.
pub open spec fn stocked_in_features(state: &WorldState, here: Seq<char>, fs: Seq<RoomFeatureDefinition>, item_id: Seq<char>, n: int) -> bool
    decreases n,
{
    if n <= 0 {
        false
    } else {
        stocked_in_features(state, here, fs, item_id, n - 1)
            || stocked_in_feature(state, here, fs[n - 1], item_id, fs[n - 1].consumables.len() as int)
    }
}

/// Whether an item is listed among the things to look at: it is not a
/// stocked consumable of the room (the feature stands for it), and the
/// player carries it or it lies in the room.
pub open spec fn item_lookable(state: &WorldState, room: RoomDefinition, here: Seq<char>, item_id: Seq<char>) -> bool {
    &&& !stocked_in_features(state, here, room.features@, item_id, room.features.len() as int)
    &&& (state.spec_item_count(item_id) > 0
        || state.spec_item_count_in_storage(item_id, ItemStorageTarget::CurrentRoom, here) > 0)
}

/// Look entries for the first `n` items of the pack that can be looked at.
pub open spec fn item_look_views(content: &ContentPack, state: &WorldState, room: RoomDefinition, here: Seq<char>, n: int) -> Seq<PanelView>
    decreases n,
{
    if n <= 0 {
        Seq::empty()
    } else {
        let prev = item_look_views(content, state, room, here, n - 1);
        let item = content.items@[n - 1];
        if item_lookable(state, room, here, item.id@) {
            prev.push(("item:"@ + item.id@, item.label@, "look at "@ + item.label@, Seq::empty()))
        } else {
            prev
        }
    }
}

pub open spec fn look_view(state: &WorldState, a: ActorDefinition) -> PanelView {
    ("actor:"@ + a.id@, spec_display_actor_name(state, &a), "look at "@ + a.id@, Seq::empty())
}

/// Everything in the current room that can be looked at: the room itself,
/// its features, the actors present, then the items carried or lying
/// there; nothing for an unknown room.
pub open spec fn interactable_panel(content: &ContentPack, state: &WorldState) -> Seq<PanelView> {
    let here = state.current_room_id@;
    if content.has_room(here) {
        let room = content.spec_room(here);
        seq![("__room__"@, room.title@, "look"@, Seq::<char>::empty())]
            + room.features@.map_values(|f: RoomFeatureDefinition| feature_view(f))
            + present_actors(content, state).map_values(|a: ActorDefinition| look_view(state, a))
            + item_look_views(content, state, room, here, content.items.len() as int)
    } else {
        Seq::empty()
    }
}

fn item_is_stocked_consumable(state: &WorldState, room: &RoomDefinition, here: &str, item_id: &str) -> (r: bool)
    requires
        state.wf(),
    ensures
        r == stocked_in_features(state, here@, room.features@, item_id@, room.features.len() as int),
{
    let mut found = false;
    let mut i: usize = 0;
    while i < room.features.len()
        invariant
            state.wf(),
            i <= room.features.len(),
            found == stocked_in_features(state, here@, room.features@, item_id@, i as int),
        decreases room.features.len() - i,
    {
        let f = &room.features[i];
        let mut in_feature = false;
        let mut j: usize = 0;
        while j < f.consumables.len()
            invariant
                state.wf(),
                j <= f.consumables.len(),
                in_feature == stocked_in_feature(state, here@, *f, item_id@, j as int),
            decreases f.consumables.len() - j,
        {
            let c = &f.consumables[j];
            if str_eq(c.id.as_str(), item_id) && state.remaining_consumable_stock(here, f.id.as_str(), item_id) > 0 {
                in_feature = true;
            }
            j = j + 1;
        }
        found = found || in_feature;
        i = i + 1;
    }
    found
}

fn push_look_actors(out: &mut Vec<PanelOption>, content: &ContentPack, state: &WorldState)
    requires
        state.wf(),
    ensures
        panel_views(final(out)@) == panel_views(old(out)@) + present_actors(content, state).map_values(|a: ActorDefinition| look_view(state, a)),
{
    let actors = in_room_actor_ids(content, state);
    let ghost pa = present_actors(content, state);
    let ghost start = panel_views(out@);
    let mut i: usize = 0;
    while i < actors.len()
        invariant
            state.wf(),
            i <= actors.len(),
            actors@.map_values(|a: &ActorDefinition| *a) == pa,
            panel_views(out@) == start + pa.take(i as int).map_values(|a: ActorDefinition| look_view(state, a)),
        decreases actors.len() - i,
    {
        let actor = actors[i];
        assert(pa[i as int] == *actor);
        let o = entry(cat("actor:", actor.id.as_str()), display_actor_name(state, actor), cat("look at ", actor.id.as_str()), String::new());
        push_entry(out, o);
        proof { lemma_take_map_push(pa, i as int, |a: ActorDefinition| look_view(state, a)); }
        i = i + 1;
    }
    assert(pa.take(actors.len() as int) =~= pa);
}

/// The full list of things in the current room that can be looked at.
pub fn room_interactable_options(content: &ContentPack, state: &WorldState) -> (r: Vec<PanelOption>)
    requires
        state.wf(),
    ensures
        panel_views(r@) == interactable_panel(content, state),
{
    let here = state.current_room_id.as_str();
    let room = match content.room(here) {
        Some(room) => room,
        None => return Vec::new(),
    };
    let mut out: Vec<PanelOption> = Vec::new();
    push_entry(&mut out, entry(string_of("__room__"), room.title.clone(), string_of("look"), String::new()));
    push_feature_entries(&mut out, room);
    push_look_actors(&mut out, content, state);
    let ghost head = panel_views(out@);
    let mut i: usize = 0;
    while i < content.items.len()
        invariant
            state.wf(),
            here@ == state.current_room_id@,
            i <= content.items.len(),
            panel_views(out@) == head + item_look_views(content, state, *room, here@, i as int),
        decreases content.items.len() - i,
    {
        let item = &content.items[i];
        if !item_is_stocked_consumable(state, room, here, item.id.as_str())
            && (state.has_item(item.id.as_str())
                || state.has_item_in_storage(item.id.as_str(), ItemStorageTarget::CurrentRoom, here)) {
            let ghost before = panel_views(out@);
            let o = entry(cat("item:", item.id.as_str()), item.label.clone(), cat("look at ", item.label.as_str()), String::new());
            push_entry(&mut out, o);
            assert(panel_views(out@) =~= head + item_look_views(content, state, *room, here@, i as int + 1));
        }
        i = i + 1;
    }
    proof {
        assert(panel_views(out@) =~= interactable_panel(content, state));
    }
    out
}

// ---------------------------------------------------------------- follow

/// How a room reads in a list: its title, or its id when the pack does not
/// know it.
pub open spec fn room_title_or_id(content: &ContentPack, room_id: Seq<char>) -> Seq<char> {
    if content.has_room(room_id) { content.spec_room(room_id).title@ } else { room_id }
}

/// The actors among the first `n` of the pack other than the player.
pub open spec fn non_player_actors(content: &ContentPack, n: int) -> Seq<ActorDefinition>
    decreases n,
{
    if n <= 0 {
        Seq::empty()
    } else {
        let prev = non_player_actors(content, n - 1);
        let a = content.actors@[n - 1];
        if content.spec_is_player_actor(a.id@) { prev } else { prev.push(a) }
    }
}

/// A follow entry: the actor by name, with the room it is in beside it.
pub open spec fn follow_view(content: &ContentPack, state: &WorldState, a: ActorDefinition) -> PanelView {
    let name = spec_display_actor_name(state, &a);
    let room_id = state.spec_actor_room_id(a.id@, a.room_id@);
    (a.id@, name, a.id@, name + " ("@ + room_title_or_id(content, room_id) + ")"@)
}

/// The follow panel: a "nobody" entry, then one entry per actor other
/// than the player, in pack order.
pub open spec fn follow_panel(content: &ContentPack, state: &WorldState) -> Seq<PanelView> {
    let nobody = content.ui_text.follow_nobody_option@;
    seq![("none"@, nobody, "none"@, nobody)]
        + non_player_actors(content, content.actors.len() as int).map_values(|a: ActorDefinition| follow_view(content, state, a))
}

/// The entries for choosing an actor to follow, or nobody.
pub fn follow_actor_options(content: &ContentPack, state: &WorldState) -> (r: Vec<PanelOption>)
    requires
        state.wf(),
    ensures
        panel_views(r@) == follow_panel(content, state),
{
    let nobody = &content.ui_text.follow_nobody_option;
    let mut out: Vec<PanelOption> = Vec::new();
    push_entry(&mut out, entry(string_of("none"), nobody.clone(), string_of("none"), nobody.clone()));
    let ghost head = panel_views(out@);
    let mut i: usize = 0;
    while i < content.actors.len()
        invariant
            state.wf(),
            i <= content.actors.len(),
            panel_views(out@) == head + non_player_actors(content, i as int).map_values(|a: ActorDefinition| follow_view(content, state, a)),
        decreases content.actors.len() - i,
    {
        let actor = &content.actors[i];
        if !content.is_player_actor(actor.id.as_str()) {
            let ghost prev = non_player_actors(content, i as int);
            let room_id = state.actor_room_id(actor.id.as_str(), actor.room_id.as_str());
            let room_title = match content.room(room_id) {
                Some(room) => room.title.clone(),
                None => string_of(room_id),
            };
            let name = display_actor_name(state, actor);
            let menu_text = cat(cat(cat(name.as_str(), " (").as_str(), room_title.as_str()).as_str(), ")");
            let o = entry(actor.id.clone(), name, actor.id.clone(), menu_text);
            push_entry(&mut out, o);
            assert(prev.push(*actor).map_values(|a: ActorDefinition| follow_view(content, state, a))
                =~= prev.map_values(|a: ActorDefinition| follow_view(content, state, a)).push(follow_view(content, state, *actor)));
            assert(panel_views(out@) =~= head + non_player_actors(content, i as int + 1).map_values(|a: ActorDefinition| follow_view(content, state, a)));
        }
        i = i + 1;
    }
    out
}

} // verus!

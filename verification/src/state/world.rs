use vstd::prelude::*;
use super::{sets_wf, ActorRelationship, ActorStance, ConversationMemoryLine, GamePhase, WorldState};
use super::seeding::{actor_seed, is_authored_pair, nested_view, seed_actor_stats_upto, seeded_actor_stats, seeded_feature_consumable_stock, seeded_pair_stats};
use crate::content::{ContentPack, RoomDefinition};
use crate::smap::{StrMap, StrSet};
use crate::text::chars_of;
use crate::variable_store::{copy_declarations, VariableStore};

verus! {

/// Counts of the first `n` starting items; a later entry for the same item
/// replaces an earlier one.
pub open spec fn starting_items_upto(items: Seq<(String, u32)>, n: int) -> Map<Seq<char>, u32>
    decreases n,
{
    if n <= 0 { Map::empty() } else { starting_items_upto(items, n - 1).insert(items[n - 1].0@, items[n - 1].1) }
}

/// The actors that start hostile to the player.
pub open spec fn initially_hostile(content: &ContentPack, id: Seq<char>) -> bool {
    exists|i: int| 0 <= i < content.actors.len() && content.actors@[i].id@ == id && #[trigger] content.actors@[i].initial_hostile
}

impl WorldState {
    /// Whether a room id is one the game may start in.
    pub open spec fn spec_valid_start_room(content: &ContentPack, room: Seq<char>) -> bool {
        if content.opening.start_room_ids.len() == 0 {
            room == content.opening.start_room_id@
        } else {
            exists|i: int| 0 <= i < content.opening.start_room_ids.len() && content.opening.start_room_ids@[i]@ == room
        }
    }

    /// The state at the start of a game: a start room (drawn at random when
    /// the opening offers several; see `new_with_start_index`).
    pub fn new(content: &ContentPack) -> (r: Self)
        requires
            content.wf(),
        ensures
            r.wf(),
            Self::spec_valid_start_room(content, r.current_room_id@),
            r.turn_number == 0,
            r.current_time_minutes == content.opening.start_time_minutes,
            r.phase == GamePhase::Active,
            r.conversation_event_sequence == 0,
            r.conversation_memory@ == Map::<Seq<char>, Vec<ConversationMemoryLine>>::empty(),
            r.actor_stat_defs@ == content.stats.actor@,
            r.pair_stat_defs@ == content.stats.pair@,
            nested_view(r.actor_stats) == seed_actor_stats_upto(content.actors@, content.stats.actor@, content.actors.len() as int),
            nested_view(r.initial_actor_stats) == nested_view(r.actor_stats),
            forall|k: Seq<char>| #[trigger] r.pair_stats@.dom().contains(k) <==> is_authored_pair(content, k),
            r.active_objective_stage_ids@ == content.beats.initial_stage_ids@,
            forall|k: Seq<char>| #[trigger] r.stage_started_minutes@.dom().contains(k) ==> r.stage_started_minutes@[k] == content.opening.start_time_minutes,
            r.actor_room_overrides@ == Map::<Seq<char>, String>::empty(),
            r.stages_completed == 0,
            r.story_vars.decls() == content.variables@,
            forall|k: Seq<char>| #[trigger] r.story_vars.vals().dom().contains(k) <==> content.variables@.dom().contains(k) && content.variables@[k].default is Some,
            r.player_inventory@ == starting_items_upto(content.settings.starting_items@, content.settings.starting_items.len() as int),
            forall|k: Seq<char>| #[trigger] r.relationships@.dom().contains(k) <==> initially_hostile(content, k),
            forall|k: Seq<char>| #[trigger] r.relationships@.dom().contains(k) ==> r.relationships@[k] == (ActorRelationship { stance: ActorStance::Hostile, follows_player: false }),
            r.actor_known_room_ids@.dom().contains(content.settings.combat.player_actor_id@),
            r.actor_known_room_ids@[content.settings.combat.player_actor_id@]@ == Set::empty().insert(r.current_room_id@),
            r.room_item_stock@ == Map::<Seq<char>, u32>::empty(),
            r.equipment@ == Map::<Seq<char>, String>::empty(),
            r.actor_xp@ == Map::<Seq<char>, u32>::empty(),
            r.actor_level@ == Map::<Seq<char>, u32>::empty(),
            r.party_orders@ == Map::<Seq<char>, crate::content::PartyOrderKind>::empty(),
            r.act_series is None,
    {
        let index = if content.opening.start_room_ids.len() == 0 {
            0
        } else {
            crate::chance::random_index(content.opening.start_room_ids.len())
        };
        Self::new_with_start_index(content, index)
    }

    /// The state at the start of a game in the start room at `index` of the
    /// opening's list (the opening's single start room when the list is
    /// empty): the opening time, seeded stats and stock, the starting items,
    /// the declared story variables at their defaults, the initial stages,
    /// and the initially hostile actors.
    pub fn new_with_start_index(content: &ContentPack, index: usize) -> (r: Self)
        requires
            content.wf(),
            content.opening.start_room_ids.len() == 0 || index < content.opening.start_room_ids.len(),
        ensures
            r.wf(),
            Self::spec_valid_start_room(content, r.current_room_id@),
            r.current_room_id@ == if content.opening.start_room_ids.len() == 0 {
                content.opening.start_room_id@
            } else {
                content.opening.start_room_ids@[index as int]@
            },
            r.turn_number == 0,
            r.current_time_minutes == content.opening.start_time_minutes,
            r.phase == GamePhase::Active,
            r.conversation_event_sequence == 0,
            r.conversation_memory@ == Map::<Seq<char>, Vec<ConversationMemoryLine>>::empty(),
            r.actor_stat_defs@ == content.stats.actor@,
            r.pair_stat_defs@ == content.stats.pair@,
            nested_view(r.actor_stats) == seed_actor_stats_upto(content.actors@, content.stats.actor@, content.actors.len() as int),
            nested_view(r.initial_actor_stats) == nested_view(r.actor_stats),
            forall|k: Seq<char>| #[trigger] r.pair_stats@.dom().contains(k) <==> is_authored_pair(content, k),
            r.active_objective_stage_ids@ == content.beats.initial_stage_ids@,
            forall|k: Seq<char>| #[trigger] r.stage_started_minutes@.dom().contains(k) ==> r.stage_started_minutes@[k] == content.opening.start_time_minutes,
            r.actor_room_overrides@ == Map::<Seq<char>, String>::empty(),
            r.stages_completed == 0,
            r.story_vars.decls() == content.variables@,
            forall|k: Seq<char>| #[trigger] r.story_vars.vals().dom().contains(k) <==> content.variables@.dom().contains(k) && content.variables@[k].default is Some,
            r.player_inventory@ == starting_items_upto(content.settings.starting_items@, content.settings.starting_items.len() as int),
            forall|k: Seq<char>| #[trigger] r.relationships@.dom().contains(k) <==> initially_hostile(content, k),
            forall|k: Seq<char>| #[trigger] r.relationships@.dom().contains(k) ==> r.relationships@[k] == (ActorRelationship { stance: ActorStance::Hostile, follows_player: false }),
            r.actor_known_room_ids@.dom().contains(content.settings.combat.player_actor_id@),
            r.actor_known_room_ids@[content.settings.combat.player_actor_id@]@ == Set::empty().insert(r.current_room_id@),
            r.room_item_stock@ == Map::<Seq<char>, u32>::empty(),
            r.equipment@ == Map::<Seq<char>, String>::empty(),
            r.actor_xp@ == Map::<Seq<char>, u32>::empty(),
            r.actor_level@ == Map::<Seq<char>, u32>::empty(),
            r.party_orders@ == Map::<Seq<char>, crate::content::PartyOrderKind>::empty(),
            r.act_series is None,
    {
        let start_room_id = if content.opening.start_room_ids.len() == 0 {
            content.opening.start_room_id.clone()
        } else {
            content.opening.start_room_ids[index].clone()
        };
        let mut actor_known_room_ids: StrMap<StrSet> = StrMap::new();
        let mut i: usize = 0;
        while i < content.actors.len()
            invariant
                sets_wf(actor_known_room_ids),
                i <= content.actors.len(),
            decreases content.actors.len() - i,
        {
            let mut rooms = StrSet::new();
            rooms.insert(chars_of(content.actors[i].room_id.as_str()));
            actor_known_room_ids.insert(chars_of(content.actors[i].id.as_str()), rooms);
            i = i + 1;
        }
        let mut player_rooms = StrSet::new();
        player_rooms.insert(chars_of(start_room_id.as_str()));
        actor_known_room_ids.insert(chars_of(content.settings.combat.player_actor_id.as_str()), player_rooms);

        let mut stage_started_minutes: StrMap<u32> = StrMap::new();
        let mut s: usize = 0;
        while s < content.beats.initial_stage_ids.len()
            invariant
                stage_started_minutes.wf(),
                s <= content.beats.initial_stage_ids.len(),
                forall|k: Seq<char>| #[trigger] stage_started_minutes@.dom().contains(k) ==> stage_started_minutes@[k] == content.opening.start_time_minutes,
            decreases content.beats.initial_stage_ids.len() - s,
        {
            stage_started_minutes.insert(chars_of(content.beats.initial_stage_ids[s].as_str()), content.opening.start_time_minutes);
            s = s + 1;
        }

        let mut player_inventory: StrMap<u32> = StrMap::new();
        let mut t: usize = 0;
        while t < content.settings.starting_items.len()
            invariant
                player_inventory.wf(),
                t <= content.settings.starting_items.len(),
                player_inventory@ == starting_items_upto(content.settings.starting_items@, t as int),
            decreases content.settings.starting_items.len() - t,
        {
            let (item, count) = &content.settings.starting_items[t];
            player_inventory.insert(chars_of(item.as_str()), *count);
            t = t + 1;
        }

        let mut relationships: StrMap<ActorRelationship> = StrMap::new();
        let mut a: usize = 0;
        while a < content.actors.len()
            invariant
                relationships.wf(),
                a <= content.actors.len(),
                forall|k: Seq<char>| #[trigger] relationships@.dom().contains(k) <==> exists|x: int| 0 <= x < a
                    && content.actors@[x].id@ == k && #[trigger] content.actors@[x].initial_hostile,
                forall|k: Seq<char>| #[trigger] relationships@.dom().contains(k) ==> relationships@[k] == (ActorRelationship { stance: ActorStance::Hostile, follows_player: false }),
            decreases content.actors.len() - a,
        {
            if content.actors[a].initial_hostile {
                relationships.insert(chars_of(content.actors[a].id.as_str()),
                    ActorRelationship { stance: ActorStance::Hostile, follows_player: false });
            }
            a = a + 1;
        }

        let actor_stats = seeded_actor_stats(content, &content.stats.actor);
        let initial_actor_stats = seeded_actor_stats(content, &content.stats.actor);
        WorldState {
            current_room_id: start_room_id,
            turn_number: 0,
            current_time_minutes: content.opening.start_time_minutes,
            phase: GamePhase::Active,
            conversation_event_sequence: 0,
            conversation_memory: StrMap::new(),
            conversation_summaries: StrMap::new(),
            actor_stat_defs: content.stats.actor.copied(),
            pair_stat_defs: content.stats.pair.copied(),
            pair_stats: seeded_pair_stats(content, &content.stats.pair),
            actor_stats,
            pending_replies: StrMap::new(),
            active_objective_stage_ids: content.beats.initial_stage_ids.clone(),
            actor_room_overrides: StrMap::new(),
            stages_completed: 0,
            feature_consumable_stock: seeded_feature_consumable_stock(content),
            followed_actor_id: None,
            active_menu_id: None,
            pending_menu_selections: Vec::new(),
            generated_menu_options: StrMap::new(),
            pending_projector_sequence_id: None,
            pending_projector_narrative_lines: Vec::new(),
            story_vars: VariableStore::new(copy_declarations(&content.variables)),
            stage_started_minutes,
            actor_known_room_ids,
            actor_observed_room_ids: StrMap::new(),
            actor_known_feature_ids: StrMap::new(),
            actor_known_actor_ids: StrMap::new(),
            actor_recent_observation_notes: StrMap::new(),
            initial_actor_stats,
            initial_pair_stats: seeded_pair_stats(content, &content.stats.pair),
            transcript: Vec::new(),
            last_transcript_line: None,
            player_inventory,
            room_item_stock: StrMap::new(),
            room_item_charges: StrMap::new(),
            relationships,
            next_hostile_strike_at: StrMap::new(),
            equipment: StrMap::new(),
            actor_xp: StrMap::new(),
            actor_level: StrMap::new(),
            party_orders: StrMap::new(),
            scripted_sequences: StrMap::new(),
            act_series: None,
        }
    }

    pub fn current_room<'a>(&self, content: &'a ContentPack) -> (r: Option<&'a RoomDefinition>)
        ensures
            r is Some == content.has_room(self.current_room_id@),
            r matches Some(room) ==> *room == content.spec_room(self.current_room_id@),
    {
        content.room(self.current_room_id.as_str())
    }
}

} // verus!

use vstd::prelude::*;
use crate::smap::{StrMap, StrSet};
use crate::content::{OpeningMenuOptionDefinition, PartyOrderKind, StatDefinition};
use crate::text::{key_sep, lex_lt};
use crate::variable_store::VariableStore;

pub mod appointments;
pub mod clock;
pub mod conversation;
pub mod inventory;
pub mod party;
pub mod relationships;
pub mod seeding;
pub mod sequences;
pub mod stats;
pub mod tracking;
pub mod world;

pub use sequences::ScriptedSequencePlayhead;
pub use appointments::{ActSeriesState, CastMemberRecord, ActHistoryEntry, ActFeedbackSummary};

verus! {

/// Whether play continues, paused at the end of an act, or is over.
#[derive(Clone, Copy, Debug, PartialEq, Eq, Structural)]
pub enum GamePhase {
    Active,
    ActEnded,
    GameEnded,
}

/// Discrete stance of an actor toward the player.
#[derive(Clone, Copy, Debug, PartialEq, Eq, Structural)]
pub enum ActorStance {
    Neutral,
    Hostile,
    Allied,
}

/// Relationship of one actor to the player.
#[derive(Clone, Copy, Debug, PartialEq, Eq, Structural)]
pub struct ActorRelationship {
    pub stance: ActorStance,
    pub follows_player: bool,
}

impl ActorRelationship {
    /// The relationship of an actor with no entry: neutral and not following.
    pub open spec fn neutral() -> ActorRelationship {
        ActorRelationship { stance: ActorStance::Neutral, follows_player: false }
    }
}

impl Default for ActorRelationship {
    fn default() -> (r: Self)
        ensures
            r == ActorRelationship::neutral(),
    {
        ActorRelationship { stance: ActorStance::Neutral, follows_player: false }
    }
}

#[derive(Clone, Copy, Debug, PartialEq, Eq, Structural)]
pub enum ConversationMemoryKind {
    Speech,
    Action,
}

#[derive(Clone, Debug)]
pub struct ConversationMemoryLine {
    pub turn_number: u32,
    pub event_sequence: u64,
    pub speaker_id: String,
    pub speaker_name: String,
    pub kind: ConversationMemoryKind,
    pub target_label: Option<String>,
    pub text: String,
}

#[derive(Clone, Debug)]
pub struct ConversationSummaryState {
    pub summary: Option<String>,
    pub pending_line_count: usize,
}

#[derive(Clone, Debug)]
pub struct PendingReplyState {
    pub speaker_id: String,
    pub listener_id: String,
    pub room_id: String,
    pub turn_number: u32,
}

/// The text and phase handed back after a turn.
pub struct TurnOutcome {
    pub text: String,
    pub phase: GamePhase,
    /// The lines that make up the text, each with its style.
    pub lines: Vec<crate::narrative::NarrativeLine>,
}

pub struct WorldSnapshot {
    pub turn_number: u32,
    pub current_room_id: String,
}

pub open spec fn nested_wf<V>(m: StrMap<StrMap<V>>) -> bool {
    &&& m.wf()
    &&& forall|k: Seq<char>| #[trigger] m@.dom().contains(k) ==> m@[k].wf()
}

pub open spec fn sets_wf(m: StrMap<StrSet>) -> bool {
    &&& m.wf()
    &&& forall|k: Seq<char>| #[trigger] m@.dom().contains(k) ==> m@[k].wf()
}

/// The key under which a pair of participants' shared state is stored: the
/// two ids joined by `::`, the lesser first.
pub open spec fn conv_key(a: Seq<char>, b: Seq<char>) -> Seq<char> {
    if !lex_lt(b, a) { a + key_sep() + b } else { b + key_sep() + a }
}

/// Everything that changes during play.
pub struct WorldState {
    pub current_room_id: String,
    pub turn_number: u32,
    pub current_time_minutes: u32,
    pub phase: GamePhase,
    pub conversation_event_sequence: u64,
    pub conversation_memory: StrMap<Vec<ConversationMemoryLine>>,
    pub conversation_summaries: StrMap<ConversationSummaryState>,
    pub actor_stat_defs: StrMap<StatDefinition>,
    pub pair_stat_defs: StrMap<StatDefinition>,
    pub pair_stats: StrMap<StrMap<i32>>,
    pub actor_stats: StrMap<StrMap<i32>>,
    pub pending_replies: StrMap<PendingReplyState>,
    pub active_objective_stage_ids: Vec<String>,
    pub actor_room_overrides: StrMap<String>,
    pub stages_completed: usize,
    pub feature_consumable_stock: StrMap<u32>,
    pub followed_actor_id: Option<String>,
    pub active_menu_id: Option<String>,
    pub pending_menu_selections: Vec<String>,
    pub generated_menu_options: StrMap<Vec<OpeningMenuOptionDefinition>>,
    pub pending_projector_sequence_id: Option<String>,
    pub pending_projector_narrative_lines: Vec<String>,
    pub story_vars: VariableStore,
    pub stage_started_minutes: StrMap<u32>,
    pub actor_known_room_ids: StrMap<StrSet>,
    pub actor_observed_room_ids: StrMap<StrSet>,
    pub actor_known_feature_ids: StrMap<StrSet>,
    pub actor_known_actor_ids: StrMap<StrSet>,
    pub actor_recent_observation_notes: StrMap<Vec<String>>,
    pub initial_actor_stats: StrMap<StrMap<i32>>,
    pub initial_pair_stats: StrMap<StrMap<i32>>,
    pub transcript: Vec<String>,
    pub last_transcript_line: Option<String>,
    pub player_inventory: StrMap<u32>,
    pub room_item_stock: StrMap<u32>,
    pub room_item_charges: StrMap<u32>,
    pub relationships: StrMap<ActorRelationship>,
    pub next_hostile_strike_at: StrMap<u32>,
    pub equipment: StrMap<String>,
    pub actor_xp: StrMap<u32>,
    pub actor_level: StrMap<u32>,
    pub party_orders: StrMap<PartyOrderKind>,
    pub scripted_sequences: StrMap<ScriptedSequencePlayhead>,
    pub act_series: Option<ActSeriesState>,
}

/// The key shared by a pair of participants, as characters.
pub fn conversation_key_chars(first: &str, second: &str) -> (r: Vec<char>)
    ensures
        r@ == conv_key(first@, second@),
{
    let a = crate::text::chars_of(first);
    let b = crate::text::chars_of(second);
    let sep = crate::text::key_sep_chars();
    if !crate::text::chars_lt(&b, &a) {
        crate::text::join3(&a, &sep, &b)
    } else {
        crate::text::join3(&b, &sep, &a)
    }
}

/// The two ids are interchangeable: a pair's key does not depend on which
/// participant is named first.
pub proof fn law_conversation_key_symmetric(a: Seq<char>, b: Seq<char>)
    ensures
        conv_key(a, b) == conv_key(b, a),
{
    crate::text::lemma_lex_total(a, b);
    crate::text::lemma_lex_asym(a, b);
}

impl WorldState {
    pub fn conversation_key(first_participant_id: &str, second_participant_id: &str) -> (r: String)
        ensures
            r@ == conv_key(first_participant_id@, second_participant_id@),
    {
        crate::text::string_from_chars(&conversation_key_chars(first_participant_id, second_participant_id))
    }

    pub open spec fn wf(&self) -> bool {
        &&& self.conversation_memory.wf()
        &&& self.conversation_summaries.wf()
        &&& self.actor_stat_defs.wf()
        &&& self.pair_stat_defs.wf()
        &&& nested_wf(self.pair_stats)
        &&& nested_wf(self.actor_stats)
        &&& self.pending_replies.wf()
        &&& self.actor_room_overrides.wf()
        &&& self.feature_consumable_stock.wf()
        &&& self.story_vars.wf()
        &&& self.stage_started_minutes.wf()
        &&& sets_wf(self.actor_known_room_ids)
        &&& sets_wf(self.actor_observed_room_ids)
        &&& sets_wf(self.actor_known_feature_ids)
        &&& sets_wf(self.actor_known_actor_ids)
        &&& self.actor_recent_observation_notes.wf()
        &&& nested_wf(self.initial_actor_stats)
        &&& nested_wf(self.initial_pair_stats)
        &&& self.player_inventory.wf()
        &&& self.room_item_stock.wf()
        &&& self.room_item_charges.wf()
        &&& self.relationships.wf()
        &&& self.next_hostile_strike_at.wf()
        &&& self.equipment.wf()
        &&& self.actor_xp.wf()
        &&& self.actor_level.wf()
        &&& self.party_orders.wf()
        &&& self.scripted_sequences.wf()
        &&& self.generated_menu_options.wf()
        &&& (self.act_series matches Some(series) ==> series.wf())
    }
}

} // verus!

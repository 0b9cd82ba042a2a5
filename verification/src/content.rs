use vstd::prelude::*;
use crate::smap::StrMap;
use crate::text::{chars_of, lemma_map_values_push, lemma_take_push, seq_starts_with, str_eq};
use crate::variable_store::VariableDeclaration;

verus! {

/// Declared range and starting value of a stat.
#[derive(Clone, Copy, Debug)]
pub struct StatDefinition {
    pub default: i32,
    pub min: Option<i32>,
    pub max: Option<i32>,
}

impl StatDefinition {
    /// `value` held within the declared bounds (the lower bound is applied
    /// first, then the upper one).
    pub open spec fn spec_clamp(&self, value: int) -> int {
        let low = match self.min { Some(m) => if value < m { m as int } else { value }, None => value };
        match self.max { Some(m) => if low > m { m as int } else { low }, None => low }
    }

    pub fn clamp(&self, value: i32) -> (r: i32)
        ensures
            r == self.spec_clamp(value as int),
    {
        let low = match self.min {
            Some(m) => if value < m { m } else { value },
            None => value,
        };
        match self.max {
            Some(m) => if low > m { m } else { low },
            None => low,
        }
    }
}

/// Where an item is held: the player's inventory or the floor of a room.
#[derive(Clone, Copy, Debug, PartialEq, Eq, Structural)]
pub enum ItemStorageTarget {
    PlayerInventory,
    CurrentRoom,
}

/// A standing order given to an allied party member.
#[derive(Clone, Copy, Debug, PartialEq, Eq, Structural)]
pub enum PartyOrderKind {
    Assist,
    Guard,
}

/// Which allies lend their strength to the player's attacks.
#[derive(Clone, Copy, Debug, PartialEq, Eq, Structural)]
pub enum AllyAttackParticipants {
    Disabled,
    AllAllies,
    FollowersOnly,
}

/// How an ally's contribution to an attack is computed.
#[derive(Clone, Copy, Debug, PartialEq, Eq, Structural)]
pub enum AllyAttackMode {
    AttackStat,
}

#[derive(Clone, Copy, Debug)]
pub struct AllyAttackPolicy {
    pub participants: AllyAttackParticipants,
    pub mode: AllyAttackMode,
    pub contribution_percent: u32,
    pub maximum_per_ally: Option<i32>,
}

/// How a defeated actor's experience is shared.
#[derive(Clone, Copy, Debug, PartialEq, Eq, Structural)]
pub enum XpDistributionMode {
    FullEach,
    SplitEvenly,
}

/// Who receives a defeated actor's experience.
#[derive(Clone, Copy, Debug, PartialEq, Eq, Structural)]
pub enum XpRecipientMode {
    PlayerOnly,
    PlayerAndFollowers,
}

#[derive(Clone, Copy, Debug)]
pub struct XpDistribution {
    pub mode: XpDistributionMode,
    pub recipients: XpRecipientMode,
}

pub struct CombatSettingsDefinition {
    pub player_actor_id: String,
    pub health_stat_id: String,
    pub attack_stat_id: String,
    pub defense_stat_id: String,
    pub minimum_damage: i32,
    pub default_attack_interval_minutes: u32,
    pub player_defeat_text: String,
    pub ally_attack: AllyAttackPolicy,
    pub xp_distribution: XpDistribution,
}

pub struct PartySettings {
    pub initial_orders: StrMap<PartyOrderKind>,
}

/// The pack's gate on converting an encircled actor.
pub enum SurroundRule {
    Unrestricted,
    Resistance { stat: String },
}

pub struct ContentSettingsDefinition {
    pub combat: CombatSettingsDefinition,
    pub party: PartySettings,
    pub equipment_slots: Vec<String>,
    pub level_reveal_room_prefix: String,
    pub surround_rule: SurroundRule,
    pub fallback_stage_id: String,
    pub fallback_required_story_vars: Vec<String>,
    pub starting_items: Vec<(String, u32)>,
    /// Whether any room can be switched to, not only the current room's exits.
    pub channel_surfing_only: bool,
    /// The actor whose view of the act its closing review gives; empty for
    /// none.
    pub closure_perspective_actor_id: String,
}

pub struct OpeningDefinition {
    pub start_room_id: String,
    pub start_room_ids: Vec<String>,
    pub start_time_minutes: u32,
    pub intro_text: String,
    pub help_text: String,
}

pub struct RoomExitDefinition {
    pub room_id: String,
    pub label: String,
    /// A story variable that must be truthy for the exit to show; empty
    /// when the exit always shows.
    pub requires_story_var: String,
    /// The title the exit shows in menus, in place of the room's own.
    pub menu_label: Option<String>,
}

pub struct FeatureConsumableDefinition {
    pub id: String,
    pub label: String,
    pub initial_stock: u32,
}

pub struct RoomFeatureDefinition {
    pub id: String,
    pub label: String,
    /// Other words the feature answers to; the first is the one menus use.
    pub aliases: Vec<String>,
    /// What looking closely at the feature tells.
    pub inspect_text: String,
    pub consumables: Vec<FeatureConsumableDefinition>,
}

/// A description that replaces a room's own once an actor has fallen (or
/// always, when it names no actor).
pub struct RoomDescriptionOverride {
    pub actor_defeated: String,
    pub summary: String,
    pub inspect_text: String,
}

pub struct RoomDefinition {
    pub id: String,
    pub title: String,
    pub summary: String,
    pub inspect_text: String,
    pub exits: Vec<RoomExitDefinition>,
    pub features: Vec<RoomFeatureDefinition>,
    pub descriptions: Vec<RoomDescriptionOverride>,
}

/// What guides an actor's voice: who they are, what lies beneath, how they
/// answer, and examples of their behaviour.
pub struct ActorPromptContext {
    pub character_notes: Vec<String>,
    pub subtext_notes: Vec<String>,
    pub response_notes: Vec<String>,
    pub behavior_examples: Vec<String>,
}

pub struct ActorDefinition {
    pub id: String,
    pub name: String,
    /// Home room; empty for an actor kept offstage.
    pub room_id: String,
    pub tags: Vec<String>,
    pub initial_stats: StrMap<i32>,
    pub initial_pair_stats: StrMap<StrMap<i32>>,
    pub resistances: StrMap<i32>,
    pub xp_drop: u32,
    pub level: u32,
    pub initial_hostile: bool,
    /// What looking closely at the actor tells; may name story variables.
    pub inspect_text: String,
    pub prompt_context: ActorPromptContext,
    /// Whether the actor can be attacked.
    pub attackable: bool,
    /// The kind of damage the actor deals; physical when not given.
    pub attack_kind: Option<String>,
    /// Minutes between the actor's strikes once hostile; the pack's default
    /// when not given.
    pub attack_interval_minutes: Option<u32>,
    /// The items the actor leaves behind when defeated, with their counts.
    pub drops: StrMap<u32>,
}

impl ActorDefinition {
    pub open spec fn wf(&self) -> bool {
        &&& self.initial_stats.wf()
        &&& self.initial_pair_stats.wf()
        &&& forall|k: Seq<char>| #[trigger] self.initial_pair_stats@.dom().contains(k) ==> self.initial_pair_stats@[k].wf()
        &&& self.resistances.wf()
        &&& self.drops.wf()
    }

    pub open spec fn spec_is_offstage(&self) -> bool {
        self.room_id@.len() == 0
    }

    /// An actor without a home room is kept offstage.
    pub fn is_offstage(&self) -> (r: bool)
        ensures
            r == self.spec_is_offstage(),
    {
        self.room_id.as_str().is_empty()
    }
}

pub struct ItemDefinition {
    pub id: String,
    pub label: String,
    pub stat_bonuses: StrMap<i32>,
    /// Primary equipment slot; empty for an item that cannot be worn.
    pub equip_slot: String,
    /// Further slots the item occupies beside its primary one.
    pub extra_slots: Vec<String>,
    pub use_hook: String,
    pub equip_hook: String,
    pub consumed_on_surround_conversion: bool,
    /// How the item reads as part of a room it lies in; empty when it is
    /// listed as a loose item instead.
    pub look_description: String,
    /// Whether the item can be picked up and put down.
    pub takeable: bool,
    /// What looking at the item tells.
    pub description: String,
}

impl ItemDefinition {
    pub fn is_takeable(&self) -> (r: bool)
        ensures
            r == self.takeable,
    {
        self.takeable
    }

    pub open spec fn spec_is_equippable(&self) -> bool {
        self.equip_slot@.len() > 0
    }

    /// The slots the item fills when worn: its primary slot, then the others.
    pub open spec fn spec_occupied_slots(&self) -> Seq<Seq<char>> {
        if self.spec_is_equippable() {
            seq![self.equip_slot@] + self.extra_slots@.map_values(|s: String| s@)
        } else {
            Seq::empty()
        }
    }

    pub fn is_equippable(&self) -> (r: bool)
        ensures
            r == self.spec_is_equippable(),
    {
        !self.equip_slot.as_str().is_empty()
    }

    pub fn occupied_slots(&self) -> (r: Vec<String>)
        ensures
            r@.map_values(|s: String| s@) == self.spec_occupied_slots(),
    {
        let mut r: Vec<String> = Vec::new();
        if !self.is_equippable() {
            assert(r@.map_values(|s: String| s@) =~= self.spec_occupied_slots());
            return r;
        }
        r.push(self.equip_slot.clone());
        let mut i: usize = 0;
        while i < self.extra_slots.len()
            invariant
                self.spec_is_equippable(),
                i <= self.extra_slots.len(),
                r@.map_values(|s: String| s@) == seq![self.equip_slot@] + self.extra_slots@.take(i as int).map_values(|s: String| s@),
            decreases self.extra_slots.len() - i,
        {
            let ghost before = r@;
            let x = self.extra_slots[i].clone();
            r.push(x);
            proof {
                lemma_map_values_push(before, x, |s: String| s@);
                lemma_take_push(self.extra_slots@, i as int);
                lemma_map_values_push(self.extra_slots@.take(i as int), self.extra_slots@[i as int], |s: String| s@);
            }
            i = i + 1;
            assert(r@.map_values(|s: String| s@) =~= seq![self.equip_slot@] + self.extra_slots@.take(i as int).map_values(|s: String| s@));
        }
        assert(self.extra_slots@.take(self.extra_slots.len() as int) =~= self.extra_slots@);
        r
    }
}

/// One step of a level curve: experience needed to leave the level and the
/// stat growth gained on doing so.
pub struct LevelDefinition {
    pub exp_required: u32,
    pub stat_changes: StrMap<i32>,
}

/// Level curves: the default one, and per-actor overrides.
pub struct LevelsDefinition {
    pub default: Vec<LevelDefinition>,
    pub actors: StrMap<Vec<LevelDefinition>>,
}

pub struct StatsDefinition {
    pub actor: StrMap<StatDefinition>,
    pub pair: StrMap<StatDefinition>,
}

/// Who voices a pack message.
#[derive(Clone, Copy, Debug, PartialEq, Eq, Structural)]
pub enum PackMessageVoice {
    Narration,
    System,
    Handler,
}

/// A pack-authored message template, optionally with a voice.
pub enum PackMessage {
    Narration(String),
    Voiced { voice: PackMessageVoice, text: String },
}

impl PackMessage {
    pub open spec fn spec_text(&self) -> Seq<char> {
        match self {
            PackMessage::Narration(t) => t@,
            PackMessage::Voiced { text, .. } => text@,
        }
    }

    pub open spec fn spec_voice(&self) -> PackMessageVoice {
        match self {
            PackMessage::Narration(_) => PackMessageVoice::Narration,
            PackMessage::Voiced { voice, .. } => *voice,
        }
    }

    pub fn text(&self) -> (r: &str)
        ensures
            r@ == self.spec_text(),
    {
        match self {
            PackMessage::Narration(t) => t.as_str(),
            PackMessage::Voiced { text, .. } => text.as_str(),
        }
    }
}

/// A value a stage-advance condition compares against.
pub enum ConditionValue {
    Number(i64),
    Text(String),
    Flag(bool),
}

/// A test on the world state that must hold for a signal to advance a stage.
pub struct AdvanceCondition {
    pub path: String,
    pub operator: String,
    pub value: ConditionValue,
}

/// A signal that can advance a stage, with the conditions it needs.
pub enum AdvanceSignal {
    Simple(String),
    Conditional { signal: String, conditions: Vec<AdvanceCondition> },
}

impl AdvanceSignal {
    pub open spec fn spec_signal(&self) -> Seq<char> {
        match self {
            AdvanceSignal::Simple(s) => s@,
            AdvanceSignal::Conditional { signal, .. } => signal@,
        }
    }

    pub fn signal(&self) -> (r: &str)
        ensures
            r@ == self.spec_signal(),
    {
        match self {
            AdvanceSignal::Simple(s) => s.as_str(),
            AdvanceSignal::Conditional { signal, .. } => signal.as_str(),
        }
    }

    pub open spec fn spec_conditions(&self) -> Seq<AdvanceCondition> {
        match self {
            AdvanceSignal::Simple(_) => Seq::empty(),
            AdvanceSignal::Conditional { conditions, .. } => conditions@,
        }
    }

    pub fn conditions(&self) -> (r: &[AdvanceCondition])
        ensures
            r@ == self.spec_conditions(),
    {
        match self {
            AdvanceSignal::Simple(_) => {
                let empty: &[AdvanceCondition] = &[];
                assert(empty@ =~= Seq::<AdvanceCondition>::empty());
                empty
            },
            AdvanceSignal::Conditional { conditions, .. } => conditions.as_slice(),
        }
    }
}

/// A change applied when a stage becomes active.
pub enum AdvanceEffect {
    AdjustActorStat { actor_id: String, stat: String, delta: i32 },
    AdjustPairStat { participant_a_id: String, participant_b_id: String, stat: String, delta: i32 },
    SetStoryVar { key: String, value: String },
}

pub struct ActorRelocation {
    pub actor_id: String,
    pub to_room_id: String,
}

/// One stage of the story's beat graph.
pub struct BeatDefinition {
    pub id: String,
    pub summary: String,
    pub advance_signals: Vec<AdvanceSignal>,
    pub next_stage_ids: Vec<String>,
    pub elapsed_minutes: u32,
    pub narrative_lines: Vec<String>,
    pub open_menu: String,
    pub on_advance_effects: Vec<AdvanceEffect>,
    pub actor_relocations: Vec<ActorRelocation>,
    pub end_act: bool,
    pub end_game: bool,
    /// The story variable whose value picks the film this stage screens;
    /// empty when it screens none.
    pub projector_sequence_var_key: String,
    pub update_message: String,
    pub quest_id: Option<String>,
    pub quest_title: Option<String>,
    pub quest_kind: Option<String>,
    /// What the stage tells of the chapter to come; empty when nothing.
    pub next_chapter_preview: String,
    /// A note on what the stage is about, for those who act in it.
    pub beat_note: String,
    /// How the stage splits the cast between two rooms, if it does.
    pub stage_assignment: Option<StageAssignmentDefinition>,
    /// A story variable listing (comma separated) the actors the stage's
    /// objectives are for; empty when they are for everyone.
    pub target_actor_story_var: String,
}

/// How a stage splits the cast between a selected room and a remaining
/// one: who leads or hosts, where the rooms are, how many may be
/// selected, and how the split is told and recorded.
pub struct StageAssignmentDefinition {
    pub selection_label: String,
    pub prompt_instructions: String,
    pub initiator_actor_id: String,
    pub selected_room_id: String,
    pub remaining_room_id: String,
    pub selected_room_story_var: String,
    pub remaining_room_story_var: String,
    pub selected_host_story_var: String,
    pub remaining_host_story_var: String,
    pub max_selected_actors: usize,
    pub min_selected_actors: usize,
    pub score_threshold: i32,
    pub group_story_var_key: String,
    pub remaining_group_story_var_key: String,
    pub initiator_line_template: String,
    pub selected_line_template: String,
    pub remaining_line_template: String,
}

impl Default for BeatDefinition {
    /// A stage with an empty id that nothing advances and that leads nowhere.
    fn default() -> (r: Self)
        ensures
            r.id@ == Seq::<char>::empty(),
            r.summary@ == Seq::<char>::empty(),
            r.advance_signals@.len() == 0,
            r.next_stage_ids@.len() == 0,
            r.elapsed_minutes == 0,
            r.narrative_lines@.len() == 0,
            r.open_menu@ == Seq::<char>::empty(),
            r.on_advance_effects@.len() == 0,
            r.actor_relocations@.len() == 0,
            !r.end_act,
            !r.end_game,
            r.projector_sequence_var_key@ == Seq::<char>::empty(),
            r.update_message@ == Seq::<char>::empty(),
            r.quest_id is None,
            r.quest_title is None,
            r.quest_kind is None,
            r.next_chapter_preview@ == Seq::<char>::empty(),
            r.beat_note@ == Seq::<char>::empty(),
            r.stage_assignment is None,
            r.target_actor_story_var@ == Seq::<char>::empty(),
    {
        BeatDefinition {
            id: String::new(),
            summary: String::new(),
            advance_signals: Vec::new(),
            next_stage_ids: Vec::new(),
            elapsed_minutes: 0,
            narrative_lines: Vec::new(),
            open_menu: String::new(),
            on_advance_effects: Vec::new(),
            actor_relocations: Vec::new(),
            end_act: false,
            end_game: false,
            projector_sequence_var_key: String::new(),
            update_message: String::new(),
            quest_id: None,
            quest_title: None,
            quest_kind: None,
            next_chapter_preview: String::new(),
            beat_note: String::new(),
            stage_assignment: None,
            target_actor_story_var: String::new(),
        }
    }
}

pub struct BeatsDefinition {
    pub initial_stage_ids: Vec<String>,
    pub stages: Vec<BeatDefinition>,
}

/// The pack's templates for presenting rooms and speech.
pub struct PresentationText {
    pub room_observation: String,
    pub features: String,
    pub people: String,
    pub exits: String,
    pub loose_items: String,
    pub objective: String,
    pub ally_suffix: String,
    pub hostile_suffix: String,
    pub feature_consumables: String,
    pub actor_speech: String,
    pub actor_targeted_speech: String,
}

/// Wording for what the player asked about but the pack does not know.
pub struct ErrorText {
    pub feature_unknown: String,
    pub room_missing: String,
    pub actor_unknown: String,
}

pub struct PresentationDefinition {
    pub presentation_text: PresentationText,
    pub error_text: ErrorText,
}

/// A film the projector can screen, chosen by a story variable's value.
pub struct OpeningMovieDefinition {
    pub id: String,
    pub match_value: String,
}

/// A member of the cast that rotates through the acts, played by one of
/// the pack's actors.
pub struct ActCastMember {
    pub id: String,
    pub name: String,
    pub actor_id: String,
    pub inspect_blurb: String,
    pub intro_blurb: String,
    pub return_blurb: String,
    pub metadata: StrMap<String>,
    pub actor_stats: StrMap<i32>,
}

/// Where a section of an act's closing card takes its content from.
#[derive(Clone, Copy, Debug, PartialEq, Eq, Structural)]
pub enum ActClosureSource {
    PerspectiveRating,
    PerspectiveReview,
    TranscriptHighlights,
    RelationshipSummary,
    ContinuationPreview,
}

pub struct ActClosureSectionDefinition {
    pub title: String,
    pub source: ActClosureSource,
}

/// The closing card shown when an act (or the game) ends.
pub struct ActClosureDefinition {
    pub title: String,
    pub subtitle_template: String,
    pub sections: Vec<ActClosureSectionDefinition>,
}

/// Interface wording the pack supplies.
pub struct UiText {
    pub follow_nobody_option: String,
    /// The line told when the player starts following someone; `{title}`
    /// stands for the one followed.
    pub follow_actor_transcript: String,
    pub follow_actor_stop_transcript: String,
    pub final_summary_empty_preview: String,
    pub act_closure_empty_highlights: String,
    pub act_closure_empty_relationships: String,
    pub act_closure: ActClosureDefinition,
    pub game_closure: ActClosureDefinition,
}

/// What a panel lists.
#[derive(Clone, Copy, Debug, PartialEq, Eq, Structural)]
pub enum PanelDataSource {
    ActorsInRoom,
    Exits,
    Features,
    LooseRoomItems,
    InventoryItems,
    CraftableItems,
}

/// What a command does when used.
#[derive(Clone, Copy, Debug, PartialEq, Eq, Structural)]
pub enum CommandEffect {
    ObserveFeature,
    ObserveActor,
    ConsumeTargetedConsumable,
    DropItem,
    PickUpItem,
    EquipItem,
    UnequipItem,
    UseItem,
    AttackTarget,
    MoveActor,
    ObserveRoom,
    RememberInRoom,
    RememberWithTargetActor,
    FollowActor,
}

/// Where a command looks for, or puts, an item.
#[derive(Clone, Copy, Debug, PartialEq, Eq, Structural)]
pub enum ActionItemStorageTarget {
    PlayerInventory,
    CurrentRoom,
}

/// A step of an objective's progress.
pub struct BeatObjectiveProgressRef {
    pub objective_id: String,
    pub key: String,
}

/// When a command may be used.
pub struct ActionAvailability {
    /// The rooms it may be used in; empty for any.
    pub allowed_rooms: Vec<String>,
    pub requires_room_item: String,
    pub requires_room_without_item: String,
    pub requires_story_var: String,
    /// The stages during which it may be used; empty for any.
    pub available_during: Vec<String>,
    pub consumes_item: Option<String>,
    pub consumes_item_storage: ActionItemStorageTarget,
    pub requires_any: Vec<String>,
    pub requires_any_storage: ActionItemStorageTarget,
    pub consumes_any: Vec<String>,
    pub consumes_any_storage: ActionItemStorageTarget,
    pub required_objective_progress: Vec<BeatObjectiveProgressRef>,
    pub blocked_by_objective_progress: Vec<BeatObjectiveProgressRef>,
    /// An item that must be at hand for the command to take effect.
    pub requires_item: Option<String>,
    pub requires_item_storage: ActionItemStorageTarget,
}

pub struct PanelConfig {
    pub data_source: PanelDataSource,
}

pub struct ActionUi {
    /// The panel the command opens to pick its target, if any.
    pub panel_config: Option<PanelConfig>,
}

/// The items a command can make.
pub struct ItemCreation {
    pub craftable_items: Vec<String>,
    /// A story variable that must be truthy before an item can be made; an
    /// item with no entry, or an empty one, is always open.
    pub craftable_item_gates: StrMap<String>,
}

/// A command the pack offers.
pub struct ActionDefinition {
    pub id: String,
    pub command: String,
    pub item_id: String,
    pub effects: Vec<CommandEffect>,
    pub available: ActionAvailability,
    pub ui: ActionUi,
    pub item_creation: Option<ItemCreation>,
    pub sets_objective_progress: Vec<BeatObjectiveProgressRef>,
    pub clears_objective_progress: Vec<BeatObjectiveProgressRef>,
}

impl ActionDefinition {
    pub open spec fn spec_has_effect(&self, effect: CommandEffect) -> bool {
        self.effects@.contains(effect)
    }

    pub fn has_effect(&self, effect: CommandEffect) -> (r: bool)
        ensures
            r == self.spec_has_effect(effect),
    {
        let mut i: usize = 0;
        while i < self.effects.len()
            invariant
                i <= self.effects.len(),
                forall|j: int| 0 <= j < i ==> self.effects@[j] != effect,
            decreases self.effects.len() - i,
        {
            if self.effects[i] == effect {
                return true;
            }
            i = i + 1;
        }
        false
    }
}

/// A step an objective can make, with how it is named.
pub struct BeatObjectiveProgressKey {
    pub key: String,
    pub label: String,
}

pub struct BeatObjectiveProgress {
    pub keys: Vec<BeatObjectiveProgressKey>,
}

/// An objective that runs while any of its stages is active.
pub struct BeatObjectiveDefinition {
    pub id: String,
    pub stage_ids: Vec<String>,
    pub progress: BeatObjectiveProgress,
}

pub struct BeatObjectivesDefinition {
    pub objectives: Vec<BeatObjectiveDefinition>,
}

/// The parts of a content pack that the engine's rules read.
/// One choice of a menu the story opens.
pub struct OpeningMenuOptionDefinition {
    pub id: String,
    pub title: String,
    pub menu_text: String,
    pub narrative_lines: Vec<String>,
    pub room_id: String,
    pub host_actor_id: String,
}

/// A menu the story can open: its choices, how many may be picked, whether
/// its choices are written afresh for each play, and the story variables
/// that keep the pick.
pub struct OpeningMenuDefinition {
    pub id: String,
    pub actor_id: String,
    pub options: Vec<OpeningMenuOptionDefinition>,
    pub dynamic: bool,
    pub max_selections: usize,
    pub min_selections: usize,
    pub selection_var_key: String,
    pub selection_id_var_key: String,
    /// Story-variable keys that take the titles of a multiple pick, one each.
    pub multi_selection_var_keys: Vec<String>,
    /// Story-variable keys that take the rooms of a multiple pick, one each.
    pub multi_selection_room_var_keys: Vec<String>,
    /// Story-variable keys that take the hosts of a multiple pick, one each.
    pub multi_selection_host_var_keys: Vec<String>,
    /// Told once a pick is made; may name story variables.
    pub selection_confirmation: String,
    /// Told when the menu opens; may name story variables.
    pub opening_narrative_lines: Vec<String>,
    pub narrative_lines: Vec<String>,
    pub generation_role: String,
    pub intent_guidance: String,
}

/// The first option with the given id.
pub open spec fn first_option(options: Seq<OpeningMenuOptionDefinition>, id: Seq<char>) -> Option<OpeningMenuOptionDefinition>
    decreases options.len(),
{
    if options.len() == 0 {
        None
    } else if options[0].id@ == id {
        Some(options[0])
    } else {
        first_option(options.drop_first(), id)
    }
}

/// The title of the first option with the given id.
pub open spec fn option_title(options: Seq<OpeningMenuOptionDefinition>, id: Seq<char>) -> Option<Seq<char>> {
    match first_option(options, id) {
        Some(o) => Some(o.title@),
        None => None,
    }
}

pub fn find_option<'a>(options: &'a Vec<OpeningMenuOptionDefinition>, id: &str) -> (r: Option<&'a OpeningMenuOptionDefinition>)
    ensures
        match r {
            Some(o) => first_option(options@, id@) == Some(*o),
            None => first_option(options@, id@) is None,
        },
{
    let mut i: usize = 0;
    assert(options@.skip(0) =~= options@);
    while i < options.len()
        invariant
            i <= options.len(),
            first_option(options@, id@) == first_option(options@.skip(i as int), id@),
        decreases options.len() - i,
    {
        assert(options@.skip(i as int)[0] == options@[i as int]);
        if str_eq(options[i].id.as_str(), id) {
            return Some(&options[i]);
        }
        assert(options@.skip(i as int).drop_first() =~= options@.skip(i as int + 1));
        i = i + 1;
    }
    None
}

pub struct ContentPack {
    pub settings: ContentSettingsDefinition,
    pub opening: OpeningDefinition,
    pub rooms: Vec<RoomDefinition>,
    pub actors: Vec<ActorDefinition>,
    pub items: Vec<ItemDefinition>,
    pub stats: StatsDefinition,
    pub levels: LevelsDefinition,
    pub messages: StrMap<PackMessage>,
    pub variables: StrMap<VariableDeclaration>,
    pub beats: BeatsDefinition,
    pub movies: Vec<OpeningMovieDefinition>,
    pub act_cast: Vec<ActCastMember>,
    pub presentation: PresentationDefinition,
    pub ui_text: UiText,
    pub beat_objectives: BeatObjectivesDefinition,
    pub menus: Vec<OpeningMenuDefinition>,
}

impl ContentPack {
    pub open spec fn wf(&self) -> bool {
        &&& self.settings.party.initial_orders.wf()
        &&& forall|i: int| 0 <= i < self.actors.len() ==> (#[trigger] self.actors@[i]).wf()
        &&& forall|i: int| 0 <= i < self.items.len() ==> (#[trigger] self.items@[i]).stat_bonuses.wf()
        &&& self.stats.actor.wf()
        &&& self.stats.pair.wf()
        &&& self.levels.actors.wf()
        &&& forall|i: int| 0 <= i < self.levels.default.len() ==> (#[trigger] self.levels.default@[i]).stat_changes.wf()
        &&& forall|k: Seq<char>, i: int| #[trigger] self.levels.actors@.dom().contains(k) && 0 <= i < self.levels.actors@[k].len()
            ==> (#[trigger] self.levels.actors@[k]@[i]).stat_changes.wf()
        &&& self.messages.wf()
        &&& self.variables.wf()
        &&& forall|i: int| 0 <= i < self.act_cast.len() ==> (#[trigger] self.act_cast@[i]).metadata.wf() && self.act_cast@[i].actor_stats.wf()
    }

    pub open spec fn first_actor_with(&self, id: Seq<char>, i: int) -> bool {
        0 <= i < self.actors.len() && self.actors@[i].id@ == id && forall|j: int| 0 <= j < i ==> self.actors@[j].id@ != id
    }

    pub open spec fn has_actor(&self, id: Seq<char>) -> bool {
        exists|i: int| 0 <= i < self.actors.len() && self.actors@[i].id@ == id
    }

    /// The definition of the first actor with the given id.
    pub open spec fn spec_actor(&self, id: Seq<char>) -> ActorDefinition
        recommends
            self.has_actor(id),
    {
        self.actors@[choose|i: int| self.first_actor_with(id, i)]
    }

    proof fn lemma_first_actor(&self, id: Seq<char>, k: int)
        requires
            0 <= k < self.actors.len(),
            self.actors@[k].id@ == id,
        ensures
            exists|i: int| self.first_actor_with(id, i),
        decreases k,
    {
        if exists|j: int| 0 <= j < k && self.actors@[j].id@ == id {
            let j = choose|j: int| 0 <= j < k && self.actors@[j].id@ == id;
            self.lemma_first_actor(id, j);
        } else {
            assert(self.first_actor_with(id, k));
        }
    }

    /// The definition found for a known actor id is well formed.
    pub proof fn lemma_actor_wf(&self, id: Seq<char>)
        requires
            self.wf(),
            self.has_actor(id),
        ensures
            self.spec_actor(id).wf(),
            self.spec_actor(id).id@ == id,
    {
        let k = choose|k: int| 0 <= k < self.actors.len() && self.actors@[k].id@ == id;
        self.lemma_first_actor(id, k);
        let c = choose|c: int| self.first_actor_with(id, c);
        assert(self.actors@[c].wf());
    }

    pub fn actor(&self, id: &str) -> (r: Option<&ActorDefinition>)
        ensures
            r is Some == self.has_actor(id@),
            r matches Some(a) ==> *a == self.spec_actor(id@) && a.id@ == id@,
    {
        let mut i: usize = 0;
        while i < self.actors.len()
            invariant
                i <= self.actors.len(),
                forall|j: int| 0 <= j < i ==> self.actors@[j].id@ != id@,
            decreases self.actors.len() - i,
        {
            if str_eq(self.actors[i].id.as_str(), id) {
                assert(self.first_actor_with(id@, i as int));
                let ghost c = choose|c: int| self.first_actor_with(id@, c);
                assert(c == i) by {
                    if c < i { } else if c > i { }
                }
                return Some(&self.actors[i]);
            }
            i = i + 1;
        }
        None
    }

    pub open spec fn has_item(&self, id: Seq<char>) -> bool {
        exists|i: int| 0 <= i < self.items.len() && self.items@[i].id@ == id
    }

    pub open spec fn first_item_with(&self, id: Seq<char>, i: int) -> bool {
        0 <= i < self.items.len() && self.items@[i].id@ == id && forall|j: int| 0 <= j < i ==> self.items@[j].id@ != id
    }

    /// The definition of the first item with the given id.
    pub open spec fn spec_item(&self, id: Seq<char>) -> ItemDefinition
        recommends
            self.has_item(id),
    {
        self.items@[choose|i: int| self.first_item_with(id, i)]
    }

    proof fn lemma_first_item(&self, id: Seq<char>, k: int)
        requires
            0 <= k < self.items.len(),
            self.items@[k].id@ == id,
        ensures
            exists|i: int| self.first_item_with(id, i),
        decreases k,
    {
        if exists|j: int| 0 <= j < k && self.items@[j].id@ == id {
            let j = choose|j: int| 0 <= j < k && self.items@[j].id@ == id;
            self.lemma_first_item(id, j);
        } else {
            assert(self.first_item_with(id, k));
        }
    }

    /// The definition found for a known item id is well formed.
    pub proof fn lemma_item_wf(&self, id: Seq<char>)
        requires
            self.wf(),
            self.has_item(id),
        ensures
            self.spec_item(id).stat_bonuses.wf(),
            self.spec_item(id).id@ == id,
    {
        let k = choose|k: int| 0 <= k < self.items.len() && self.items@[k].id@ == id;
        self.lemma_first_item(id, k);
        let c = choose|c: int| self.first_item_with(id, c);
        assert(self.items@[c].stat_bonuses.wf());
    }

    pub fn item(&self, id: &str) -> (r: Option<&ItemDefinition>)
        ensures
            r is Some == self.has_item(id@),
            r matches Some(it) ==> *it == self.spec_item(id@) && it.id@ == id@,
    {
        let mut i: usize = 0;
        while i < self.items.len()
            invariant
                i <= self.items.len(),
                forall|j: int| 0 <= j < i ==> self.items@[j].id@ != id@,
            decreases self.items.len() - i,
        {
            if str_eq(self.items[i].id.as_str(), id) {
                assert(self.first_item_with(id@, i as int));
                let ghost c = choose|c: int| self.first_item_with(id@, c);
                assert(c == i) by {
                    if c < i { } else if c > i { }
                }
                return Some(&self.items[i]);
            }
            i = i + 1;
        }
        None
    }

    pub open spec fn has_room(&self, id: Seq<char>) -> bool {
        exists|i: int| 0 <= i < self.rooms.len() && self.rooms@[i].id@ == id
    }

    pub open spec fn first_room_with(&self, id: Seq<char>, i: int) -> bool {
        0 <= i < self.rooms.len() && self.rooms@[i].id@ == id && forall|j: int| 0 <= j < i ==> self.rooms@[j].id@ != id
    }

    pub open spec fn spec_room(&self, id: Seq<char>) -> RoomDefinition
        recommends
            self.has_room(id),
    {
        self.rooms@[choose|i: int| self.first_room_with(id, i)]
    }

    pub fn room(&self, id: &str) -> (r: Option<&RoomDefinition>)
        ensures
            r is Some == self.has_room(id@),
            r matches Some(room) ==> *room == self.spec_room(id@) && room.id@ == id@,
    {
        let mut i: usize = 0;
        while i < self.rooms.len()
            invariant
                i <= self.rooms.len(),
                forall|j: int| 0 <= j < i ==> self.rooms@[j].id@ != id@,
            decreases self.rooms.len() - i,
        {
            if str_eq(self.rooms[i].id.as_str(), id) {
                assert(self.first_room_with(id@, i as int));
                let ghost c = choose|c: int| self.first_room_with(id@, c);
                assert(c == i) by {
                    if c < i { } else if c > i { }
                }
                return Some(&self.rooms[i]);
            }
            i = i + 1;
        }
        None
    }

    pub open spec fn has_menu(&self, id: Seq<char>) -> bool {
        exists|i: int| 0 <= i < self.menus.len() && self.menus@[i].id@ == id
    }

    pub open spec fn first_menu_with(&self, id: Seq<char>, i: int) -> bool {
        0 <= i < self.menus.len() && self.menus@[i].id@ == id && forall|j: int| 0 <= j < i ==> self.menus@[j].id@ != id
    }

    /// The first menu with the given id.
    pub open spec fn spec_menu(&self, id: Seq<char>) -> OpeningMenuDefinition
        recommends
            self.has_menu(id),
    {
        self.menus@[choose|i: int| self.first_menu_with(id, i)]
    }

    pub fn menu(&self, id: &str) -> (r: Option<&OpeningMenuDefinition>)
        ensures
            r is Some == self.has_menu(id@),
            r matches Some(menu) ==> *menu == self.spec_menu(id@) && menu.id@ == id@,
    {
        let mut i: usize = 0;
        while i < self.menus.len()
            invariant
                i <= self.menus.len(),
                forall|j: int| 0 <= j < i ==> self.menus@[j].id@ != id@,
            decreases self.menus.len() - i,
        {
            if str_eq(self.menus[i].id.as_str(), id) {
                assert(self.first_menu_with(id@, i as int));
                let ghost c = choose|c: int| self.first_menu_with(id@, c);
                assert(c == i) by {
                    if c < i { } else if c > i { }
                }
                return Some(&self.menus[i]);
            }
            i = i + 1;
        }
        None
    }

    pub open spec fn spec_is_player_actor(&self, id: Seq<char>) -> bool {
        id == self.settings.combat.player_actor_id@
    }

    pub fn is_player_actor(&self, id: &str) -> (r: bool)
        ensures
            r == self.spec_is_player_actor(id@),
    {
        str_eq(id, self.settings.combat.player_actor_id.as_str())
    }

    /// The rooms reachable through the exits of `room_id`, in exit order
    /// (none for an unknown room).
    pub open spec fn spec_adjacent_room_ids(&self, room_id: Seq<char>) -> Seq<Seq<char>> {
        if self.has_room(room_id) {
            self.spec_room(room_id).exits@.map_values(|e: RoomExitDefinition| e.room_id@)
        } else {
            Seq::empty()
        }
    }

    pub fn adjacent_room_ids(&self, room_id: &str) -> (r: Vec<String>)
        ensures
            r@.map_values(|s: String| s@) == self.spec_adjacent_room_ids(room_id@),
    {
        let mut r: Vec<String> = Vec::new();
        match self.room(room_id) {
            None => {
                assert(r@.map_values(|s: String| s@) =~= self.spec_adjacent_room_ids(room_id@));
                r
            },
            Some(room) => {
                let mut i: usize = 0;
                while i < room.exits.len()
                    invariant
                        i <= room.exits.len(),
                        r@.map_values(|s: String| s@) == room.exits@.take(i as int).map_values(|e: RoomExitDefinition| e.room_id@),
                    decreases room.exits.len() - i,
                {
                    let ghost before = r@;
                    let x = room.exits[i].room_id.clone();
                    r.push(x);
                    proof {
                        lemma_map_values_push(before, x, |s: String| s@);
                        lemma_take_push(room.exits@, i as int);
                        lemma_map_values_push(room.exits@.take(i as int), room.exits@[i as int], |e: RoomExitDefinition| e.room_id@);
                    }
                    i = i + 1;
                    assert(r@.map_values(|s: String| s@) =~= room.exits@.take(i as int).map_values(|e: RoomExitDefinition| e.room_id@));
                }
                assert(room.exits@.take(room.exits.len() as int) =~= room.exits@);
                r
            },
        }
    }

    /// Level numbers are shown only in rooms whose id begins with the
    /// declared prefix; an empty prefix shows them everywhere.
    pub open spec fn spec_levels_revealed_for_room(&self, room_id: Seq<char>) -> bool {
        seq_starts_with(room_id, self.settings.level_reveal_room_prefix@)
    }

    pub fn levels_revealed_for_room(&self, room_id: &str) -> (r: bool)
        ensures
            r == self.spec_levels_revealed_for_room(room_id@),
    {
        let room = chars_of(room_id);
        let prefix = chars_of(self.settings.level_reveal_room_prefix.as_str());
        let r = crate::text::matches_at(&room, 0, &prefix);
        assert(room@.skip(0) =~= room@);
        r
    }

    /// A template with its `{name}` placeholders filled in, in order.
    pub fn render_template(&self, template: &str, replacements: &[(&str, &str)]) -> (r: String)
        ensures
            r@ == crate::text::fill_template(template@, crate::text::pair_views(replacements@), replacements@.len() as int),
    {
        crate::text::fill_placeholders(template, replacements)
    }

    /// The message authored under `key`, rendered; `None` when the pack has
    /// no such message.
    pub open spec fn spec_render_message(&self, key: Seq<char>, replacements: Seq<(Seq<char>, Seq<char>)>) -> Option<Seq<char>> {
        if self.messages@.dom().contains(key) {
            Some(crate::text::fill_template(self.messages@[key].spec_text(), replacements, replacements.len() as int))
        } else {
            None
        }
    }

    pub fn render_message(&self, key: &str, replacements: &[(&str, &str)]) -> (r: Option<String>)
        requires
            self.wf(),
        ensures
            r is Some == self.spec_render_message(key@, crate::text::pair_views(replacements@)) is Some,
            r matches Some(t) ==> t@ == self.spec_render_message(key@, crate::text::pair_views(replacements@))->0,
    {
        match self.messages.get_str(key) {
            Some(m) => Some(crate::text::fill_placeholders(m.text(), replacements)),
            None => None,
        }
    }

    /// The voice of the message under `key`; narration when there is none.
    pub open spec fn spec_message_voice(&self, key: Seq<char>) -> PackMessageVoice {
        if self.messages@.dom().contains(key) { self.messages@[key].spec_voice() } else { PackMessageVoice::Narration }
    }

    pub fn message_voice(&self, key: &str) -> (r: PackMessageVoice)
        requires
            self.wf(),
        ensures
            r == self.spec_message_voice(key@),
    {
        match self.messages.get_str(key) {
            Some(PackMessage::Narration(_)) => PackMessageVoice::Narration,
            Some(PackMessage::Voiced { voice, .. }) => *voice,
            None => PackMessageVoice::Narration,
        }
    }

    /// The level curve of an actor: its own override when it has one,
    /// otherwise the default curve.
    pub open spec fn spec_level_table(&self, actor_id: Seq<char>) -> Seq<LevelDefinition> {
        if self.levels.actors@.dom().contains(actor_id) {
            self.levels.actors@[actor_id]@
        } else {
            self.levels.default@
        }
    }

    pub fn level_table(&self, actor_id: &str) -> (r: &Vec<LevelDefinition>)
        requires
            self.wf(),
        ensures
            r@ == self.spec_level_table(actor_id@),
    {
        match self.levels.actors.get_str(actor_id) {
            Some(t) => t,
            None => &self.levels.default,
        }
    }

    /// The curve step that leaves `level` (levels count from one).
    pub open spec fn spec_level_definition(&self, actor_id: Seq<char>, level: int) -> Option<LevelDefinition> {
        let table = self.spec_level_table(actor_id);
        if 1 <= level <= table.len() { Some(table[level - 1]) } else { None }
    }

    pub fn level_definition(&self, actor_id: &str, level: u32) -> (r: Option<&LevelDefinition>)
        requires
            self.wf(),
        ensures
            r is Some == self.spec_level_definition(actor_id@, level as int) is Some,
            r matches Some(d) ==> self.spec_level_definition(actor_id@, level as int) == Some(*d),
    {
        let table = self.level_table(actor_id);
        if level >= 1 && ((level - 1) as usize) < table.len() {
            Some(&table[(level - 1) as usize])
        } else {
            None
        }
    }
}

} // verus!

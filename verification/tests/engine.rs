use cinder_core::reducer::actor_commands::{apply_actor_command_realization_effects, ActorCommandContext};
use cinder_core::reducer::handlers::menus::{
    apply_menu_choice, handle_menu_choice_made, handle_menu_opened, handle_menu_selection_toggled,
};
use cinder_core::content::ActorPromptContext;
use cinder_core::content::{BeatObjectivesDefinition, 
    ActorDefinition, AllyAttackMode, AllyAttackParticipants, AllyAttackPolicy, BeatsDefinition,
    CombatSettingsDefinition, ContentPack, ContentSettingsDefinition, LevelsDefinition,
    OpeningDefinition, PartyOrderKind, PartySettings, RoomDefinition, RoomExitDefinition,
    StatDefinition, StatsDefinition, SurroundRule, XpDistribution, XpDistributionMode,
    XpRecipientMode,
};
use cinder_core::content::{AdvanceCondition, AdvanceSignal, BeatDefinition, ConditionValue};
use cinder_core::reducer::beat_advance::{
    advance_conditions_met, advance_objective_for_signal, evaluate_advance_condition,
    fallback_stage_to_activate, time_reached_signal, time_reached_signals,
};
use cinder_core::content::{PackMessage, PackMessageVoice, PresentationDefinition, PresentationText};
use cinder_core::narrative::{NarrativeLineKind, NarrativeLines};
use cinder_core::reducer::handlers::movement::handle_player_moved;
use cinder_core::content::{ActCastMember, ActClosureDefinition, ErrorText, ActClosureSectionDefinition, ActClosureSource, UiText};
use cinder_core::closure::{
    assemble_closure, chapter_transcript_lines, closure_needs_perspective, closure_needs_summary,
    current_next_chapter_preview, fallback_perspective_review, final_chapter_summary, relationship_pairs,
    relationship_status_lines, ActClosure, ActClosureSection, CachedPerspectiveReview, FinalChapterSummary,
    PerspectiveReview,
};
use cinder_core::runtime::CinderRuntime;
use cinder_core::content::{
    ActionAvailability, ActionDefinition, ActionItemStorageTarget, ActionUi, BeatObjectiveDefinition, BeatObjectiveProgress,
    BeatObjectiveProgressKey, BeatObjectiveProgressRef, CommandEffect, ItemCreation, ItemDefinition, ItemStorageTarget,
    OpeningMenuDefinition, OpeningMenuOptionDefinition, PanelConfig, PanelDataSource,
};
use cinder_core::turn_policies::{
    action_is_available, apply_command_objective_progress_effects, clear_inactive_objective_state, command_availability_issue,
    command_unavailable_message, objective_progress_is_met, CommandAvailabilityIssue,
};
use cinder_core::state::appointments::{current_patient_actor_id, render_dynamic_story_text, resolved_actor_prompt_context};
use cinder_core::state::GamePhase;
use cinder_core::smap::StrMap;
use cinder_core::variable_store::VariableStore;
use cinder_core::state::{ActorStance, WorldState};

fn empty_presentation_text() -> PresentationText {
    PresentationText {
        room_observation: String::new(),
        features: String::new(),
        people: String::new(),
        exits: String::new(),
        loose_items: String::new(),
        objective: String::new(),
        ally_suffix: String::new(),
        hostile_suffix: String::new(),
        feature_consumables: String::new(),
        actor_speech: String::new(),
        actor_targeted_speech: String::new(),
    }
}

fn empty_closure() -> ActClosureDefinition {
    ActClosureDefinition { title: String::new(), subtitle_template: String::new(), sections: Vec::new() }
}

fn empty_ui_text() -> UiText {
    UiText {
        follow_nobody_option: String::new(),
        follow_actor_transcript: "You follow {title}.".to_string(),
        follow_actor_stop_transcript: "You stop following.".to_string(),
        final_summary_empty_preview: String::new(),
        act_closure_empty_highlights: String::new(),
        act_closure_empty_relationships: String::new(),
        act_closure: empty_closure(),
        game_closure: empty_closure(),
    }
}

fn stat(default: i32) -> StatDefinition {
    StatDefinition { default, min: None, max: None }
}

fn room(id: &str, title: &str, summary: &str, exit: &str, exit_label: &str) -> RoomDefinition {
    RoomDefinition {
        id: id.to_string(),
        title: title.to_string(),
        summary: summary.to_string(),
        inspect_text: summary.to_string(),
        exits: vec![RoomExitDefinition {
            room_id: exit.to_string(),
            label: exit_label.to_string(),
            requires_story_var: String::new(),
            menu_label: None,
        }],
        features: Vec::new(),
        descriptions: Vec::new(),
    }
}

fn actor(id: &str, name: &str, confidence: i32, stamina: i32, hunger: i32) -> ActorDefinition {
    let mut initial_stats = StrMap::new();
    initial_stats.insert_str("confidence", confidence);
    initial_stats.insert_str("stamina", stamina);
    initial_stats.insert_str("hunger", hunger);
    ActorDefinition {
        id: id.to_string(),
        name: name.to_string(),
        room_id: "lounge".to_string(),
        tags: Vec::new(),
        initial_stats,
        initial_pair_stats: StrMap::new(),
        resistances: StrMap::new(),
        xp_drop: 0,
        level: 1,
        initial_hostile: false,
        inspect_text: String::new(),
        prompt_context: ActorPromptContext {
            character_notes: Vec::new(),
            subtext_notes: Vec::new(),
            response_notes: Vec::new(),
            behavior_examples: Vec::new(),
        },
        attackable: false,
        attack_kind: None,
        attack_interval_minutes: None,
        drops: StrMap::new(),
    }
}

/// Two rooms (lounge, kitchen), two actors (blair, casey) in the lounge, and
/// hunger/stamina/confidence actor stats.
fn minimal_test_pack() -> ContentPack {
    let mut actor_stats = StrMap::new();
    actor_stats.insert_str("hunger", stat(0));
    actor_stats.insert_str("stamina", stat(0));
    actor_stats.insert_str("confidence", stat(0));
    let mut pair_stats = StrMap::new();
    pair_stats.insert_str("safety", stat(0));
    pair_stats.insert_str("attraction", stat(0));
    pair_stats.insert_str("connection", stat(0));
    ContentPack {
        settings: ContentSettingsDefinition {
            combat: CombatSettingsDefinition {
                player_actor_id: "player".to_string(),
                health_stat_id: "health".to_string(),
                attack_stat_id: "attack".to_string(),
                defense_stat_id: "defense".to_string(),
                minimum_damage: 1,
                default_attack_interval_minutes: 10,
                player_defeat_text: String::new(),
                ally_attack: AllyAttackPolicy {
                    participants: AllyAttackParticipants::Disabled,
                    mode: AllyAttackMode::AttackStat,
                    contribution_percent: 0,
                    maximum_per_ally: None,
                },
                xp_distribution: XpDistribution {
                    mode: XpDistributionMode::FullEach,
                    recipients: XpRecipientMode::PlayerOnly,
                },
            },
            party: PartySettings { initial_orders: StrMap::new() },
            equipment_slots: Vec::new(),
            level_reveal_room_prefix: String::new(),
            surround_rule: SurroundRule::Unrestricted,
            fallback_stage_id: String::new(),
            fallback_required_story_vars: Vec::new(),
            starting_items: Vec::new(),
            channel_surfing_only: false,
            closure_perspective_actor_id: String::new(),
        },
        opening: OpeningDefinition {
            start_room_id: "lounge".to_string(),
            start_room_ids: Vec::new(),
            start_time_minutes: 1080,
            intro_text: "Intro".to_string(),
            help_text: "Help".to_string(),
        },
        rooms: vec![
            room("lounge", "Lounge", "A shared lounge.", "kitchen", "Kitchen"),
            room("kitchen", "Kitchen", "A warm kitchen.", "lounge", "Lounge"),
        ],
        actors: vec![actor("blair", "Blair", 3, 6, 5), actor("casey", "Casey", 7, 7, 4)],
        items: Vec::new(),
        stats: StatsDefinition { actor: actor_stats, pair: pair_stats },
        levels: LevelsDefinition { default: Vec::new(), actors: StrMap::new() },
        messages: StrMap::new(),
        variables: StrMap::new(),
        beats: BeatsDefinition { initial_stage_ids: Vec::new(), stages: Vec::new() },
        movies: Vec::new(),
        act_cast: Vec::new(),
        presentation: PresentationDefinition {
            presentation_text: empty_presentation_text(),
            error_text: ErrorText { feature_unknown: String::new(), room_missing: String::new(), actor_unknown: String::new() },
        },
        ui_text: empty_ui_text(),
        beat_objectives: BeatObjectivesDefinition { objectives: Vec::new() },
        menus: Vec::new(),
    }
}

fn allied_state() -> (ContentPack, WorldState) {
    let mut content = minimal_test_pack();
    content.settings.party.initial_orders.insert_str("blair", PartyOrderKind::Guard);
    let mut state = WorldState::new(&content);
    state.set_stance("blair", ActorStance::Allied);
    state.set_follows_player("blair", true);
    (content, state)
}

#[test]
fn content_initial_order_applies_until_overridden() {
    let (content, mut state) = allied_state();
    assert_eq!(state.party_order(&content, "blair"), Some(PartyOrderKind::Guard));

    state.assign_party_order(&content, "blair", PartyOrderKind::Assist).unwrap();
    assert_eq!(state.party_order(&content, "blair"), Some(PartyOrderKind::Assist));
    assert!(state.follows_player("blair"));
}

#[test]
fn orders_require_a_living_allied_member_in_the_current_room() {
    let (content, mut state) = allied_state();
    let error = state.assign_party_order(&content, "casey", PartyOrderKind::Guard).unwrap_err();
    assert!(error.contains("not allied"), "{error}");

    state.actor_room_overrides.insert_str("blair", "kitchen".to_string());
    let error = state.assign_party_order(&content, "blair", PartyOrderKind::Assist).unwrap_err();
    assert!(error.contains("not in the current room"), "{error}");
}

#[test]
fn level_reveal_follows_the_declared_room_prefix() {
    let mut pack = minimal_test_pack();
    assert!(pack.levels_revealed_for_room("alpha"), "empty prefix: levels always visible");
    pack.settings.level_reveal_room_prefix = "down".to_string();
    assert!(!pack.levels_revealed_for_room("topside"), "upper stays hidden");
    assert!(pack.levels_revealed_for_room("down-barrow"), "descended board reveals levels");
}

#[test]
fn initial_order_is_given_only_once() {
    let (content, mut state) = allied_state();
    state.initialize_party_order(&content, "blair");
    assert_eq!(state.party_order(&content, "blair"), Some(PartyOrderKind::Guard));
    state.assign_party_order(&content, "blair", PartyOrderKind::Assist).unwrap();
    state.initialize_party_order(&content, "blair");
    assert_eq!(state.party_order(&content, "blair"), Some(PartyOrderKind::Assist));
}

#[test]
fn orders_refuse_unknown_and_player_actors() {
    let (content, mut state) = allied_state();
    let error = state.assign_party_order(&content, "nobody", PartyOrderKind::Guard).unwrap_err();
    assert_eq!(error, "unknown party actor 'nobody'");
    assert_eq!(state.party_order(&content, "casey"), None);
}

#[test]
fn fallback_stage_activates_only_when_requirements_are_met() {
    let stages = vec![BeatDefinition { id: "wind-down".to_string(), ..BeatDefinition::default() }];
    let mut story_vars = VariableStore::default();
    story_vars.set_unchecked("movie_title", "A Film");
    story_vars.set_unchecked("snack_title", "Toast");

    let stage_id = fallback_stage_to_activate(
        "wind-down",
        &["movie_title".to_string(), "snack_title".to_string()],
        &stages,
        &[],
        false,
        &story_vars,
    );

    assert_eq!(stage_id.as_deref(), Some("wind-down"));
}

#[test]
fn fallback_stage_does_not_activate_when_any_requirement_is_missing() {
    let stages = vec![BeatDefinition { id: "wind-down".to_string(), ..BeatDefinition::default() }];
    let mut story_vars = VariableStore::default();
    story_vars.set_unchecked("movie_title", "A Film");

    let stage_id = fallback_stage_to_activate(
        "wind-down",
        &["movie_title".to_string(), "snack_title".to_string()],
        &stages,
        &[],
        false,
        &story_vars,
    );

    assert!(stage_id.is_none());
}

#[test]
fn fallback_stage_waits_while_a_stage_is_active_or_the_game_is_over() {
    let stages = vec![BeatDefinition { id: "wind-down".to_string(), ..BeatDefinition::default() }];
    let story_vars = VariableStore::default();
    assert!(fallback_stage_to_activate("wind-down", &[], &stages, &["prep".to_string()], false, &story_vars).is_none());
    assert!(fallback_stage_to_activate("wind-down", &[], &stages, &[], true, &story_vars).is_none());
    assert!(fallback_stage_to_activate("missing", &[], &stages, &[], false, &story_vars).is_none());
    assert_eq!(fallback_stage_to_activate("wind-down", &[], &stages, &[], false, &story_vars).as_deref(), Some("wind-down"));
}

#[test]
fn advance_conditions_met_simple_signal_always_passes() {
    let pack = minimal_test_pack();
    let state = WorldState::new(&pack);
    let signal = AdvanceSignal::Simple("time_reached:20:00".to_string());
    assert!(advance_conditions_met(&state, signal.conditions()));
}

#[test]
fn conditions_read_stats_story_variables_and_stages() {
    let pack = minimal_test_pack();
    let mut state = WorldState::new(&pack);
    state.story_vars.set_unchecked("meal", "ready");
    state.active_objective_stage_ids = vec!["prep".to_string()];
    let cond = |path: &str, operator: &str, value: ConditionValue| AdvanceCondition {
        path: path.to_string(),
        operator: operator.to_string(),
        value,
    };
    assert!(evaluate_advance_condition(&state, &cond("actor_stats.blair.stamina", "gte", ConditionValue::Number(6))));
    assert!(!evaluate_advance_condition(&state, &cond("actor_stats.blair.stamina", "greater_than", ConditionValue::Number(6))));
    assert!(evaluate_advance_condition(&state, &cond("actor_stats.casey.hunger", "equal", ConditionValue::Number(4))));
    assert!(evaluate_advance_condition(&state, &cond("current_time_minutes", "lte", ConditionValue::Number(1080))));
    assert!(evaluate_advance_condition(&state, &cond("story_vars.values.meal", "equal", ConditionValue::Text("ready".to_string()))));
    assert!(evaluate_advance_condition(&state, &cond("story_vars.values.snack", "not_equal", ConditionValue::Text("ready".to_string()))));
    assert!(evaluate_advance_condition(&state, &cond("active_stage_ids", "array_contains", ConditionValue::Text("prep".to_string()))));
    assert!(!evaluate_advance_condition(&state, &cond("actor_stats.blair", "equal", ConditionValue::Number(6))));
    assert!(!evaluate_advance_condition(&state, &cond("actor_stats.blair.stamina", "between", ConditionValue::Number(6))));
    let conds = vec![
        cond("actor_stats.blair.stamina", "gte", ConditionValue::Number(6)),
        cond("stages_completed", "greater_than", ConditionValue::Number(0)),
    ];
    assert!(!advance_conditions_met(&state, &conds));
}

#[test]
fn clock_signals_name_every_minute_passed() {
    assert_eq!(time_reached_signal(9 * 60 + 5), "time_reached:09:05");
    assert_eq!(time_reached_signal(24 * 60 + 30), "time_reached:00:30");
    let signals = time_reached_signals(1079, 1081);
    assert_eq!(signals, vec!["time_reached:18:00".to_string(), "time_reached:18:01".to_string()]);
    assert!(time_reached_signals(1081, 1080).is_empty());
}

#[test]
fn signals_advance_matching_stages_and_start_the_next() {
    let mut pack = minimal_test_pack();
    pack.beats = BeatsDefinition {
        initial_stage_ids: vec!["prep".to_string(), "idle".to_string()],
        stages: vec![
            BeatDefinition {
                id: "prep".to_string(),
                advance_signals: vec![AdvanceSignal::Simple("command_used".to_string())],
                next_stage_ids: vec!["dinner".to_string()],
                ..BeatDefinition::default()
            },
            BeatDefinition {
                id: "idle".to_string(),
                advance_signals: vec![AdvanceSignal::Simple("other".to_string())],
                ..BeatDefinition::default()
            },
            BeatDefinition {
                id: "dinner".to_string(),
                elapsed_minutes: 15,
                narrative_lines: vec!["Blair has stamina {actor.blair.stamina}.".to_string()],
                ..BeatDefinition::default()
            },
        ],
    };
    let mut state = WorldState::new(&pack);
    let lines = advance_objective_for_signal(&mut state, &pack, "nothing");
    assert!(lines.is_empty());
    assert_eq!(state.active_objective_stage_ids, vec!["idle".to_string(), "prep".to_string()]);

    let lines = advance_objective_for_signal(&mut state, &pack, "command_used");
    assert_eq!(lines, vec!["Blair has stamina 6.".to_string()]);
    assert_eq!(state.active_objective_stage_ids, vec!["dinner".to_string(), "idle".to_string()]);
    assert_eq!(state.current_time_minutes, 1080 + 15);
    assert_eq!(state.stages_completed, 1);
    assert_eq!(state.stage_started_minutes.get_str("dinner"), Some(&(1080 + 15)));
}

#[test]
fn stage_elapsed_signal_advances_relative_to_stage_start() {
    let mut pack = minimal_test_pack();
    pack.beats = BeatsDefinition {
        initial_stage_ids: vec!["prep".to_string()],
        stages: vec![
            BeatDefinition {
                id: "prep".to_string(),
                advance_signals: vec![AdvanceSignal::Simple("stage_elapsed:10".to_string())],
                next_stage_ids: vec!["done".to_string()],
                ..BeatDefinition::default()
            },
            BeatDefinition { id: "done".to_string(), ..BeatDefinition::default() },
        ],
    };
    let mut state = WorldState::new(&pack);
    state.current_time_minutes = 9 * 60 + 12;
    state.stage_started_minutes.insert_str("prep", 9 * 60);

    advance_objective_for_signal(&mut state, &pack, "time_reached:09:12");

    assert_eq!(state.active_objective_stage_ids, vec!["done".to_string()]);
    assert_eq!(state.stage_started_minutes.get_str("done"), Some(&(9 * 60 + 12)));
}

#[test]
fn player_movement_records_room_visits() {
    let mut content = minimal_test_pack();
    content.settings.combat.player_actor_id = "player".to_string();
    let mut state = WorldState::new(&content);
    let mut lines = NarrativeLines::new();

    assert!(state.actor_has_visited_room("player", "lounge"));

    handle_player_moved(&mut state, &content, "kitchen", &mut lines);

    assert!(state.actor_has_visited_room("player", "kitchen"));
}

#[test]
fn offstage_follower_is_not_dragged_into_the_player_room() {
    let mut content = minimal_test_pack();
    content.settings.combat.player_actor_id = "player".to_string();
    let blair = content.actors.iter_mut().find(|actor| actor.id == "blair").unwrap();
    blair.room_id.clear();
    let mut state = WorldState::new(&content);
    let mut relationship = state.relationship("blair");
    relationship.follows_player = true;
    state.set_relationship("blair", relationship);
    let mut lines = NarrativeLines::new();

    handle_player_moved(&mut state, &content, "kitchen", &mut lines);

    assert!(!state.actor_room_overrides.contains_str("blair"));
    assert_eq!(state.actor_room_id("blair", ""), "");
}

#[test]
fn coordinated_party_movement_emits_one_authored_summary() {
    let mut content = minimal_test_pack();
    content.settings.combat.player_actor_id = "player".to_string();
    content.settings.combat.health_stat_id = "stamina".to_string();
    content.messages.insert_str(
        "follow.party_follows",
        PackMessage::Voiced { voice: PackMessageVoice::System, text: "{actors} move with you.".to_string() },
    );
    content.messages.insert_str(
        "follow.actor_follows",
        PackMessage::Narration("{actor} moves with you.".to_string()),
    );
    let mut state = WorldState::new(&content);
    state.set_follows_player("blair", true);
    state.set_follows_player("casey", true);
    let mut lines = NarrativeLines::new();

    handle_player_moved(&mut state, &content, "kitchen", &mut lines);

    assert_eq!(
        lines
            .0
            .iter()
            .filter(|line| line.text.contains("move with you"))
            .map(|line| line.text.as_str())
            .collect::<Vec<_>>(),
        vec!["Blair and Casey move with you."]
    );
    assert_eq!(
        lines.0.iter().find(|line| line.text == "Blair and Casey move with you.").map(|line| line.kind),
        Some(NarrativeLineKind::System)
    );
    assert_eq!(state.actor_room_id("blair", "lounge"), "kitchen");
    assert_eq!(state.actor_room_id("casey", "lounge"), "kitchen");
}

#[test]
fn four_or_more_followers_use_the_scalable_party_message() {
    let mut content = minimal_test_pack();
    content.settings.combat.player_actor_id = "player".to_string();
    content.settings.combat.health_stat_id = "stamina".to_string();
    content.actors.push(actor("blair-2", "Blair", 3, 6, 5));
    content.actors.push(actor("casey-2", "Casey", 7, 7, 4));
    content.messages.insert_str("follow.party_follows", PackMessage::Narration("{actors} move with you.".to_string()));
    content.messages.insert_str(
        "follow.large_party_follows",
        PackMessage::Narration("Your party follows close behind.".to_string()),
    );
    let mut state = WorldState::new(&content);
    for actor_id in ["blair", "blair-2", "casey", "casey-2"] {
        state.set_follows_player(actor_id, true);
    }
    let mut lines = NarrativeLines::new();

    handle_player_moved(&mut state, &content, "kitchen", &mut lines);

    assert_eq!(
        lines
            .0
            .iter()
            .filter(|line| line.text.contains("party"))
            .map(|line| line.text.as_str())
            .collect::<Vec<_>>(),
        vec!["Your party follows close behind."]
    );
}

#[test]
fn packs_without_a_party_summary_keep_per_member_narration() {
    let mut content = minimal_test_pack();
    content.settings.combat.player_actor_id = "player".to_string();
    content.settings.combat.health_stat_id = "stamina".to_string();
    content.messages.insert_str(
        "follow.actor_follows",
        PackMessage::Narration("{actor} moves with you.".to_string()),
    );
    let mut state = WorldState::new(&content);
    state.set_follows_player("blair", true);
    state.set_follows_player("casey", true);
    let mut lines = NarrativeLines::new();

    handle_player_moved(&mut state, &content, "kitchen", &mut lines);

    assert_eq!(lines.0.iter().filter(|line| line.text.contains("moves with you")).count(), 2);
}

#[test]
fn dead_followers_stay_behind_and_the_player_is_never_moved() {
    let mut content = minimal_test_pack();
    content.settings.combat.player_actor_id = "blair".to_string();
    content.settings.combat.health_stat_id = "stamina".to_string();
    content.messages.insert_str(
        "follow.actor_follows",
        PackMessage::Narration("{actor} moves with you.".to_string()),
    );
    let mut state = WorldState::new(&content);
    state.set_follows_player("blair", true);
    state.set_follows_player("casey", true);
    state.adjust_actor_stat("casey", "stamina", -7).unwrap();
    let mut lines = NarrativeLines::new();

    handle_player_moved(&mut state, &content, "kitchen", &mut lines);

    assert!(lines.0.is_empty());
    assert!(!state.actor_room_overrides.contains_str("blair"));
    assert!(!state.actor_room_overrides.contains_str("casey"));
    assert_eq!(state.current_room_id, "kitchen");
}

#[test]
fn current_objective_summaries_includes_quest_metadata() {
    let mut content = minimal_test_pack();
    content.beats.initial_stage_ids = vec!["mq_1".to_string(), "sq_1".to_string()];
    content.beats.stages = vec![
        BeatDefinition {
            id: "mq_1".to_string(),
            quest_id: Some("teleport_scroll".to_string()),
            quest_title: Some("The Teleportation Scroll".to_string()),
            quest_kind: Some("main".to_string()),
            summary: "Find Commander Malik's safe".to_string(),
            update_message: "Infiltrate the bastion and find the safe.".to_string(),
            ..BeatDefinition::default()
        },
        BeatDefinition {
            id: "sq_1".to_string(),
            quest_id: Some("save_zayd".to_string()),
            quest_title: Some("Save the Boy Zayd".to_string()),
            quest_kind: Some("side".to_string()),
            summary: "Locate the steam prison cage".to_string(),
            update_message: "Search for Zayd in the military complex.".to_string(),
            ..BeatDefinition::default()
        },
    ];

    let runtime = CinderRuntime::new(content);
    let objectives = runtime.current_objective_summaries();

    assert_eq!(objectives.len(), 2);
    assert_eq!(objectives[0].quest_id.as_deref(), Some("teleport_scroll"));
    assert_eq!(objectives[0].quest_title.as_deref(), Some("The Teleportation Scroll"));
    assert_eq!(objectives[0].quest_kind.as_deref(), Some("main"));
    assert_eq!(objectives[0].summary, "Find Commander Malik's safe");

    assert_eq!(objectives[1].quest_id.as_deref(), Some("save_zayd"));
    assert_eq!(objectives[1].quest_title.as_deref(), Some("Save the Boy Zayd"));
    assert_eq!(objectives[1].quest_kind.as_deref(), Some("side"));
    assert_eq!(objectives[1].summary, "Locate the steam prison cage");
}

#[test]
fn runtime_queries_read_the_world() {
    let mut content = minimal_test_pack();
    content.beats.initial_stage_ids = vec!["hidden".to_string(), "open".to_string()];
    content.beats.stages = vec![
        BeatDefinition {
            id: "hidden".to_string(),
            summary: String::new(),
            advance_signals: vec![AdvanceSignal::Simple("stat_threshold".to_string())],
            ..BeatDefinition::default()
        },
        BeatDefinition {
            id: "found".to_string(),
            summary: "Found it".to_string(),
            advance_signals: vec![AdvanceSignal::Simple("stat_threshold".to_string())],
            ..BeatDefinition::default()
        },
        BeatDefinition { id: "open".to_string(), summary: "Look around".to_string(), ..BeatDefinition::default() },
    ];
    let mut runtime = CinderRuntime::new(content);
    assert_eq!(runtime.current_room_id(), "lounge");
    assert_eq!(runtime.current_time_label(), "6:00 PM");
    assert_eq!(runtime.current_day_number(), 1);
    assert_eq!(runtime.active_stage_ids(), vec!["hidden".to_string(), "open".to_string()]);
    assert_eq!(runtime.active_stage_summaries(), vec!["Look around".to_string()]);
    assert_eq!(runtime.current_secret_progress(), (1, 2));
    assert_eq!(runtime.current_objective_progress(), (0, 3));
    assert_eq!(runtime.actor_display_name("blair"), Some("Blair".to_string()));
    assert_eq!(runtime.actor_display_name("nobody"), None);
    assert_eq!(runtime.current_intro_text(), "Intro");
    assert!(!runtime.player_has_item("key"));
    assert!(runtime.inventory_items().is_empty());

    runtime.push_transcript_line("hello");
    runtime.push_transcript_line("hello");
    runtime.push_transcript_line("bye");
    assert_eq!(runtime.last_transcript_line(), Some("bye".to_string()));
    assert_eq!(runtime.state().transcript, vec!["hello".to_string(), "bye".to_string()]);
    assert!(runtime.consume_pending_projector_sequence().is_none());
    assert!(runtime.consume_pending_projector_narrative_lines().is_empty());
}

fn cast_member(id: &str, name: &str, actor_id: &str) -> ActCastMember {
    let mut metadata = StrMap::new();
    metadata.insert_str("mood", format!("{name} mood"));
    let mut actor_stats = StrMap::new();
    actor_stats.insert_str("confidence", 9);
    ActCastMember {
        id: id.to_string(),
        name: name.to_string(),
        actor_id: actor_id.to_string(),
        inspect_blurb: String::new(),
        intro_blurb: format!("{name} sits down."),
        return_blurb: format!("{name} is back."),
        metadata,
        actor_stats,
    }
}

#[test]
fn the_first_act_keeps_the_authored_cast_member_and_later_acts_rotate() {
    let mut content = minimal_test_pack();
    content.act_cast = vec![cast_member("p1", "Pat", "blair"), cast_member("p2", "Quinn", "blair")];
    let mut runtime = CinderRuntime::new(content);
    assert_eq!(runtime.current_cast_member_name(), Some("Pat".to_string()));
    assert_eq!(runtime.current_intro_text(), "Intro");
    let state = runtime.state();
    assert_eq!(state.story_vars.get("act_cast_name"), Some("Pat"));
    assert_eq!(state.story_vars.get("act_cast_actor_id"), Some("blair"));
    assert_eq!(state.story_vars.get("act_cast_slot_base_name"), Some("Blair"));
    assert_eq!(state.story_vars.get("patient_mood"), Some("Pat mood"));
    assert_eq!(state.story_vars.get("patient_returning"), Some("false"));
    assert_eq!(state.story_vars.get("act_number"), Some("1"));
    assert_eq!(state.actor_stat("blair", "confidence"), 9);
    assert_eq!(current_patient_actor_id(state), Some("blair"));
    assert_eq!(render_dynamic_story_text("Hello Blair, {act_cast_name}.", state), "Hello Pat, Pat.");
    assert_eq!(runtime.actor_display_name("blair"), Some("Pat".to_string()));

    assert_eq!(runtime.advance_act(None), None, "the act has not ended");
    let mut state = runtime.export_state();
    state.phase = GamePhase::ActEnded;
    let content = minimal_test_pack_with_cast();
    let mut runtime = CinderRuntime::from_state(content, state);
    let intro = runtime.advance_act(None).expect("second act");
    assert!(intro.contains("Act 2: Quinn"), "{intro}");
    assert!(intro.contains("Quinn arrives. Quinn sits down."), "{intro}");
    assert_eq!(runtime.current_cast_member_name(), Some("Quinn".to_string()));
    assert_eq!(runtime.state().current_time_minutes, 1080 + 1440);
    assert_eq!(runtime.state().phase, GamePhase::Active);

    let mut state = runtime.export_state();
    state.phase = GamePhase::ActEnded;
    let mut runtime = CinderRuntime::from_state(minimal_test_pack_with_cast(), state);
    let intro = runtime.advance_act(None).expect("third act");
    assert!(intro.contains("Act 3: Pat"), "{intro}");
    assert!(intro.contains("Pat returns. Pat is back."), "{intro}");
    assert_eq!(runtime.state().story_vars.get("patient_returning"), Some("true"));
}

fn minimal_test_pack_with_cast() -> ContentPack {
    let mut content = minimal_test_pack();
    content.act_cast = vec![cast_member("p1", "Pat", "blair"), cast_member("p2", "Quinn", "blair")];
    content
}

fn three_actor_pack() -> ContentPack {
    let mut pack = minimal_test_pack();
    pack.actors.push(actor("drew", "Drew", 1, 1, 1));
    pack
}

#[test]
fn relationship_pairs_list_connected_pairs_strongest_first() {
    let pack = three_actor_pack();
    let mut state = WorldState::new(&pack);
    assert!(relationship_pairs(&pack, &state).is_empty());
    state.adjust_pair_stat("blair", "casey", "connection", 1).unwrap();
    state.adjust_pair_stat("blair", "drew", "connection", 4).unwrap();
    state.adjust_pair_stat("blair", "drew", "attraction", 2).unwrap();
    state.adjust_pair_stat("casey", "drew", "connection", -2).unwrap();
    state.adjust_pair_stat("casey", "drew", "safety", 5).unwrap();
    let pairs: Vec<(String, String, i32, i32, i32)> = relationship_pairs(&pack, &state)
        .into_iter()
        .map(|p| (p.actor_a, p.actor_b, p.connection, p.attraction, p.safety))
        .collect();
    assert_eq!(
        pairs,
        vec![
            ("Blair".to_string(), "Drew".to_string(), 4, 2, 0),
            ("Blair".to_string(), "Casey".to_string(), 1, 0, 0),
            ("Casey".to_string(), "Drew".to_string(), -2, 0, 5),
        ]
    );
}

#[test]
fn relationship_status_lines_name_moved_stats_most_changed_first() {
    let pack = three_actor_pack();
    let mut state = WorldState::new(&pack);
    assert!(relationship_status_lines(&pack, &state).is_empty());
    state.adjust_pair_stat("blair", "casey", "connection", 1).unwrap();
    state.adjust_pair_stat("casey", "drew", "safety", -3).unwrap();
    state.adjust_pair_stat("casey", "drew", "attraction", 2).unwrap();
    assert_eq!(
        relationship_status_lines(&pack, &state),
        vec!["Casey / Drew: attraction 2, safety -3".to_string(), "Blair / Casey: connection 1".to_string()]
    );
}

#[test]
fn next_chapter_preview_comes_from_the_first_active_stage_that_has_one() {
    let mut pack = minimal_test_pack();
    pack.beats.stages = vec![
        BeatDefinition { id: "quiet".to_string(), ..BeatDefinition::default() },
        BeatDefinition { id: "storm".to_string(), next_chapter_preview: "A storm is coming.".to_string(), ..BeatDefinition::default() },
    ];
    let mut state = WorldState::new(&pack);
    assert_eq!(current_next_chapter_preview(&pack, &state), None);
    state.active_objective_stage_ids = vec!["missing".to_string(), "quiet".to_string(), "storm".to_string()];
    assert_eq!(current_next_chapter_preview(&pack, &state), Some("A storm is coming.".to_string()));
}

#[test]
fn chapter_lines_drop_blank_lines_and_player_echoes() {
    let transcript = vec![
        "  The door creaks.  ".to_string(),
        "> look".to_string(),
        "   ".to_string(),
        "Blair waves.".to_string(),
    ];
    assert_eq!(chapter_transcript_lines(&transcript), vec!["The door creaks.".to_string(), "Blair waves.".to_string()]);
}

#[test]
fn fallback_review_rates_the_act_from_stat_changes() {
    let mut deltas = StrMap::new();
    deltas.insert_str("trust", 3);
    deltas.insert_str("openness", 2);
    deltas.insert_str("resistance", 1);
    let mut current = StrMap::new();
    current.insert_str("secrets_found", 2);
    let review = fallback_perspective_review(&current, &deltas);
    assert_eq!(review.rating, 5);
    assert!(review.review_text.is_empty());
    let mut gloomy = StrMap::new();
    gloomy.insert_str("resistance", 5);
    assert_eq!(fallback_perspective_review(&StrMap::new(), &gloomy).rating, 1);
    assert_eq!(fallback_perspective_review(&StrMap::new(), &StrMap::new()).rating, 3);
}

fn closing_card() -> ActClosureDefinition {
    ActClosureDefinition {
        title: "Act Over".to_string(),
        subtitle_template: "About {subject_name}".to_string(),
        sections: vec![
            ActClosureSectionDefinition { title: "Rating".to_string(), source: ActClosureSource::PerspectiveRating },
            ActClosureSectionDefinition { title: "Highlights".to_string(), source: ActClosureSource::TranscriptHighlights },
            ActClosureSectionDefinition { title: "Next".to_string(), source: ActClosureSource::ContinuationPreview },
        ],
    }
}

fn card_summary() -> FinalChapterSummary {
    FinalChapterSummary {
        what_happened: "Tea was spilled.".to_string(),
        relationship_status: "Warmer.".to_string(),
        next_chapter_preview: "Morning.".to_string(),
    }
}

fn card_sections(card: &ActClosure) -> Vec<(String, String)> {
    card.sections
        .iter()
        .map(|s| match s {
            ActClosureSection::Text { title, body } => (title.clone(), body.clone()),
            ActClosureSection::Rating { title, value, max } => (title.clone(), format!("{value}/{max}")),
        })
        .collect()
}

#[test]
fn closing_card_draws_each_section_from_what_was_made() {
    let pack = minimal_test_pack();
    let definition = closing_card();
    assert!(closure_needs_summary(&definition));
    assert!(closure_needs_perspective(&definition));
    let review = CachedPerspectiveReview {
        subject_name: "Sam".to_string(),
        review: PerspectiveReview { rating: 4, review_text: "Kind.".to_string() },
    };
    let summary = card_summary();
    let card = assemble_closure(&pack, &definition, Some(&summary), Some(&review), Some("Pat".to_string())).unwrap();
    assert_eq!(card.title, "Act Over");
    assert_eq!(card.subtitle, Some("About Sam".to_string()));
    assert_eq!(
        card_sections(&card),
        vec![
            ("Rating".to_string(), "4/5".to_string()),
            ("Highlights".to_string(), "Tea was spilled.".to_string()),
            ("Next".to_string(), "Morning.".to_string()),
        ]
    );
    let card = assemble_closure(&pack, &definition, Some(&summary), None, Some("Pat".to_string())).unwrap();
    assert_eq!(card.subtitle, Some("About Pat".to_string()));
    assert_eq!(card_sections(&card).len(), 2);
    assert!(assemble_closure(&pack, &definition, None, None, None).is_none());
}

#[test]
fn act_closure_is_built_once_the_act_ends_and_kept_until_play_resumes() {
    let mut pack = minimal_test_pack();
    pack.ui_text.act_closure = closing_card();
    let mut fresh = minimal_test_pack();
    fresh.ui_text.act_closure = closing_card();
    let mut runtime = CinderRuntime::new(fresh);
    assert!(runtime.act_closure(Some(&card_summary()), None).is_none());

    let mut state = WorldState::new(&pack);
    state.phase = GamePhase::ActEnded;
    let mut runtime = CinderRuntime::from_state(pack, state);
    let first = runtime.act_closure(Some(&card_summary()), None).expect("card");
    assert_eq!(first.subtitle, Some("About ".to_string()));
    let again = runtime.act_closure(None, None).expect("kept card");
    assert_eq!(card_sections(&again), card_sections(&first));
    runtime.continue_after_act();
    assert!(runtime.act_closure(Some(&card_summary()), None).is_none());
}

#[test]
fn chapter_summary_uses_pack_wording_when_there_is_nothing_to_summarize() {
    let mut pack = minimal_test_pack();
    pack.ui_text.act_closure_empty_highlights = "Nothing happened.".to_string();
    pack.ui_text.act_closure_empty_relationships = "No one changed.".to_string();
    pack.ui_text.final_summary_empty_preview = "To be continued.".to_string();
    let state = WorldState::new(&pack);
    let summary = final_chapter_summary(&pack, &state, &["> wait".to_string()], "unused".to_string(), "unused".to_string());
    assert_eq!(summary.what_happened, "Nothing happened.");
    assert_eq!(summary.relationship_status, "No one changed.");
    assert_eq!(summary.next_chapter_preview, "To be continued.");
    let summary = final_chapter_summary(&pack, &state, &["Rain fell.".to_string()], "It rained.".to_string(), "x".to_string());
    assert_eq!(summary.what_happened, "It rained.");
}

fn blank_availability() -> ActionAvailability {
    ActionAvailability {
        allowed_rooms: Vec::new(),
        requires_room_item: String::new(),
        requires_room_without_item: String::new(),
        requires_story_var: String::new(),
        available_during: Vec::new(),
        consumes_item: None,
        consumes_item_storage: ActionItemStorageTarget::PlayerInventory,
        requires_any: Vec::new(),
        requires_any_storage: ActionItemStorageTarget::PlayerInventory,
        consumes_any: Vec::new(),
        consumes_any_storage: ActionItemStorageTarget::CurrentRoom,
        required_objective_progress: Vec::new(),
        blocked_by_objective_progress: Vec::new(),
        requires_item: None,
        requires_item_storage: ActionItemStorageTarget::PlayerInventory,
    }
}

fn command(id: &str) -> ActionDefinition {
    ActionDefinition {
        id: id.to_string(),
        command: id.to_uppercase(),
        item_id: String::new(),
        effects: Vec::new(),
        available: blank_availability(),
        ui: ActionUi { panel_config: None },
        item_creation: None,
        sets_objective_progress: Vec::new(),
        clears_objective_progress: Vec::new(),
    }
}

fn step(objective_id: &str, key: &str) -> BeatObjectiveProgressRef {
    BeatObjectiveProgressRef { objective_id: objective_id.to_string(), key: key.to_string() }
}

fn objectives_pack() -> ContentPack {
    let mut pack = minimal_test_pack();
    pack.beat_objectives.objectives.push(BeatObjectiveDefinition {
        id: "dinner".to_string(),
        stage_ids: vec!["cook".to_string()],
        progress: BeatObjectiveProgress {
            keys: vec![
                BeatObjectiveProgressKey { key: "chopped".to_string(), label: "chop the onions".to_string() },
                BeatObjectiveProgressKey { key: "stirred".to_string(), label: "  ".to_string() },
            ],
        },
    });
    pack
}

#[test]
fn commands_are_offered_only_where_and_when_the_pack_allows() {
    let pack = objectives_pack();
    let mut state = WorldState::new(&pack);
    let mut cook = command("cook");
    assert!(action_is_available(&pack, &state, &cook, "lounge"));
    cook.available.allowed_rooms = vec!["kitchen".to_string()];
    assert!(!action_is_available(&pack, &state, &cook, "lounge"));
    assert!(action_is_available(&pack, &state, &cook, "kitchen"));
    cook.available.requires_story_var = "stove_lit".to_string();
    assert!(!action_is_available(&pack, &state, &cook, "kitchen"));
    state.story_vars.set_unchecked("stove_lit", "yes");
    assert!(action_is_available(&pack, &state, &cook, "kitchen"));
    cook.available.available_during = vec!["cook".to_string()];
    assert!(!action_is_available(&pack, &state, &cook, "kitchen"));
    state.active_objective_stage_ids = vec!["cook".to_string()];
    assert!(action_is_available(&pack, &state, &cook, "kitchen"));
    cook.available.consumes_any = vec!["onion".to_string()];
    assert!(!action_is_available(&pack, &state, &cook, "kitchen"));
    state.add_item_to_storage("onion", ItemStorageTarget::CurrentRoom, "kitchen");
    assert!(action_is_available(&pack, &state, &cook, "kitchen"));
    cook.available.required_objective_progress = vec![step("dinner", "chopped")];
    assert!(!action_is_available(&pack, &state, &cook, "kitchen"));
    state.story_vars.set_unchecked("beat_objective:progress:dinner:chopped", "true");
    assert!(action_is_available(&pack, &state, &cook, "kitchen"));
    cook.available.blocked_by_objective_progress = vec![step("dinner", "chopped")];
    assert!(!action_is_available(&pack, &state, &cook, "kitchen"));
}

#[test]
fn item_commands_follow_the_item() {
    let mut pack = objectives_pack();
    pack.items.push(ItemDefinition {
        id: "apron".to_string(),
        label: "apron".to_string(),
        stat_bonuses: StrMap::new(),
        equip_slot: "body".to_string(),
        extra_slots: Vec::new(),
        use_hook: String::new(),
        equip_hook: String::new(),
        consumed_on_surround_conversion: false,
        look_description: String::new(),
        takeable: true,
        description: String::new(),
    });
    let mut state = WorldState::new(&pack);
    let mut wear = command("wear");
    wear.item_id = "apron".to_string();
    wear.effects = vec![CommandEffect::EquipItem];
    let mut remove = command("remove");
    remove.item_id = "apron".to_string();
    remove.effects = vec![CommandEffect::UnequipItem];
    assert!(!action_is_available(&pack, &state, &wear, "lounge"));
    state.add_item("apron");
    assert!(action_is_available(&pack, &state, &wear, "lounge"));
    assert!(!action_is_available(&pack, &state, &remove, "lounge"));
    state.equipment.insert_str("body", "apron".to_string());
    assert!(action_is_available(&pack, &state, &remove, "lounge"));
}

#[test]
fn target_panels_hide_commands_with_nothing_to_pick() {
    let pack = objectives_pack();
    let mut state = WorldState::new(&pack);
    let mut attack = command("attack");
    attack.effects = vec![CommandEffect::AttackTarget];
    attack.ui = ActionUi { panel_config: Some(PanelConfig { data_source: PanelDataSource::ActorsInRoom }) };
    assert!(action_is_available(&pack, &state, &attack, "lounge"));
    assert!(!action_is_available(&pack, &state, &attack, "kitchen"));
    state.set_stance("blair", ActorStance::Allied);
    state.set_stance("casey", ActorStance::Allied);
    assert!(!action_is_available(&pack, &state, &attack, "lounge"));

    let mut craft = command("craft");
    craft.ui = ActionUi { panel_config: Some(PanelConfig { data_source: PanelDataSource::CraftableItems }) };
    let mut gates = StrMap::new();
    gates.insert_str("charm", "charm_known".to_string());
    craft.item_creation = Some(ItemCreation { craftable_items: vec!["charm".to_string()], craftable_item_gates: gates });
    assert!(!action_is_available(&pack, &state, &craft, "lounge"));
    state.story_vars.set_unchecked("charm_known", "1");
    assert!(action_is_available(&pack, &state, &craft, "lounge"));

    let mut drop = command("drop");
    drop.ui = ActionUi { panel_config: Some(PanelConfig { data_source: PanelDataSource::InventoryItems }) };
    assert!(!action_is_available(&pack, &state, &drop, "lounge"));
    state.add_item("pebble");
    assert!(action_is_available(&pack, &state, &drop, "lounge"));
}

#[test]
fn unavailable_commands_say_what_is_missing() {
    let mut pack = objectives_pack();
    pack.messages.insert_str("error.command_needs_more", PackMessage::Narration("To {verb}, first: {labels}.".to_string()));
    pack.messages.insert_str("error.command_not_now", PackMessage::Narration("You cannot {verb} now.".to_string()));
    let mut state = WorldState::new(&pack);
    state.current_room_id = "kitchen".to_string();
    let mut cook = command("cook");
    cook.available.required_objective_progress = vec![step("dinner", "chopped"), step("dinner", "stirred"), step("other", "x")];
    let issue = command_availability_issue(&pack, &state, &cook).expect("issue");
    match &issue {
        CommandAvailabilityIssue::MissingObjectiveProgress(labels) => {
            assert_eq!(labels, &vec!["chop the onions".to_string(), "stirred".to_string(), "x".to_string()])
        },
        _ => panic!("expected missing progress"),
    }
    assert_eq!(command_unavailable_message(&pack, &cook, &issue), "To cook, first: chop the onions, stirred, x.");
    cook.available.required_objective_progress.clear();
    cook.available.requires_room_item = "pot".to_string();
    let issue = command_availability_issue(&pack, &state, &cook).expect("issue");
    assert!(matches!(&issue, CommandAvailabilityIssue::RoomItemCondition(c) if c == "required"));
    assert_eq!(command_unavailable_message(&pack, &cook, &issue), "You cannot cook now.");
    state.add_item_to_storage("pot", ItemStorageTarget::CurrentRoom, "kitchen");
    assert!(command_availability_issue(&pack, &state, &cook).is_none());
}

#[test]
fn recorded_progress_reads_back_until_its_objective_goes_inactive() {
    let pack = objectives_pack();
    let mut state = WorldState::new(&pack);
    state.active_objective_stage_ids = vec!["cook".to_string()];
    let mut chop = command("chop");
    chop.sets_objective_progress = vec![step("dinner", "chopped"), step("dinner", "stirred")];
    chop.clears_objective_progress = vec![step("dinner", "stirred")];
    apply_command_objective_progress_effects(&mut state, &chop);
    assert!(objective_progress_is_met(&pack, &state, &step("dinner", "chopped")));
    assert!(!objective_progress_is_met(&pack, &state, &step("dinner", "stirred")));
    state.story_vars.set_unchecked("beat_objective:actor_complete:dinner:blair", "true");
    clear_inactive_objective_state(&pack, &mut state);
    assert!(objective_progress_is_met(&pack, &state, &step("dinner", "chopped")));
    state.active_objective_stage_ids.clear();
    clear_inactive_objective_state(&pack, &mut state);
    assert!(!objective_progress_is_met(&pack, &state, &step("dinner", "chopped")));
    assert_eq!(state.story_vars.get("beat_objective:actor_complete:dinner:blair"), None);
}

#[test]
fn switch_room_view_walks_through_an_open_exit() {
    let mut rt = CinderRuntime::new(minimal_test_pack());
    let outcome = rt.switch_room_view("kitchen").unwrap();
    assert_eq!(rt.current_room_id(), "kitchen");
    assert_eq!(rt.state().turn_number, 1);
    assert!(outcome.text.contains("== Kitchen =="));
    assert_eq!(outcome.phase, GamePhase::Active);
}

#[test]
fn switch_room_view_of_the_current_room_only_looks() {
    let mut rt = CinderRuntime::new(minimal_test_pack());
    let outcome = rt.switch_room_view("lounge").unwrap();
    assert_eq!(rt.current_room_id(), "lounge");
    assert!(outcome.text.starts_with("== Lounge =="));
}

#[test]
fn switch_room_view_refuses_unknown_and_closed_rooms() {
    let mut rt = CinderRuntime::new(minimal_test_pack());
    assert_eq!(rt.switch_room_view("attic").err(), Some("missing room 'attic'".to_string()));
    let mut pack = minimal_test_pack();
    pack.rooms[0].exits[0].requires_story_var = "door_open".to_string();
    let mut rt = CinderRuntime::new(pack);
    assert_eq!(
        rt.switch_room_view("kitchen").err(),
        Some("'kitchen' is not an open exit of the current room".to_string())
    );
    assert_eq!(rt.current_room_id(), "lounge");
    assert_eq!(rt.state().turn_number, 0);
}

#[test]
fn follow_actor_in_the_same_room_only_tells_the_line() {
    let mut rt = CinderRuntime::new(minimal_test_pack());
    let outcome = rt.follow_actor(Some("blair")).unwrap();
    assert_eq!(outcome.text, "> You follow Blair.");
    assert_eq!(rt.followed_actor_id(), Some("blair".to_string()));
    assert_eq!(rt.current_room_id(), "lounge");
    let stopped = rt.follow_actor(None).unwrap();
    assert_eq!(stopped.text, "> You stop following.");
    assert_eq!(rt.followed_actor_id(), None);
    assert_eq!(rt.state().turn_number, 2);
}

#[test]
fn follow_actor_elsewhere_walks_to_and_looks_at_their_room() {
    let content = minimal_test_pack();
    let mut state = WorldState::new(&content);
    state.actor_room_overrides.insert_str("casey", "kitchen".to_string());
    let mut rt = CinderRuntime::from_state(content, state);
    let outcome = rt.follow_actor(Some("casey")).unwrap();
    assert_eq!(rt.current_room_id(), "kitchen");
    assert!(outcome.text.starts_with("> You follow Casey.\n"));
    assert!(outcome.text.contains("== Kitchen =="));
}

#[test]
fn follow_actor_refuses_an_unknown_actor() {
    let mut rt = CinderRuntime::new(minimal_test_pack());
    assert_eq!(rt.follow_actor(Some("ghost")).err(), Some("missing actor 'ghost'".to_string()));
    assert_eq!(rt.followed_actor_id(), None);
}

#[test]
fn signal_headroom_runs_out_at_the_end_of_the_clock() {
    let content = minimal_test_pack();
    let mut state = WorldState::new(&content);
    assert!(cinder_core::reducer::beat_advance::has_signal_headroom(&state, &content, 2));
    state.active_objective_stage_ids.push("a".to_string());
    state.stages_completed = usize::MAX;
    assert!(!cinder_core::reducer::beat_advance::has_signal_headroom(&state, &content, 1));
    assert!(cinder_core::reducer::beat_advance::has_signal_headroom(&state, &content, 0));
}

fn menu_option(id: &str, title: &str) -> OpeningMenuOptionDefinition {
    OpeningMenuOptionDefinition {
        id: id.to_string(),
        title: title.to_string(),
        menu_text: format!("{title}!"),
        narrative_lines: Vec::new(),
        room_id: String::new(),
        host_actor_id: String::new(),
    }
}

fn date_menu(dynamic: bool, max_selections: usize) -> OpeningMenuDefinition {
    OpeningMenuDefinition {
        id: "date".to_string(),
        actor_id: "blair".to_string(),
        options: vec![menu_option("park", "The Park"), menu_option("pier", "The Pier")],
        dynamic,
        max_selections,
        min_selections: 0,
        selection_var_key: "date_title".to_string(),
        selection_id_var_key: "date_id".to_string(),
        multi_selection_var_keys: Vec::new(),
        multi_selection_room_var_keys: Vec::new(),
        multi_selection_host_var_keys: Vec::new(),
        selection_confirmation: String::new(),
        opening_narrative_lines: Vec::new(),
        narrative_lines: Vec::new(),
        generation_role: String::new(),
        intent_guidance: String::new(),
    }
}

#[test]
fn menu_choice_options_number_the_options_and_close_multi_picks() {
    let mut content = minimal_test_pack();
    content.menus.push(date_menu(false, 2));
    let mut state = WorldState::new(&content);
    assert!(CinderRuntime::from_state(minimal_test_pack(), WorldState::new(&minimal_test_pack()))
        .menu_choice_options()
        .is_none());
    state.active_menu_id = Some("date".to_string());
    let rt = CinderRuntime::from_state(content, state);
    let options = rt.menu_choice_options().unwrap();
    let rows: Vec<(String, String, String, String)> =
        options.into_iter().map(|o| (o.id, o.title, o.command, o.menu_text)).collect();
    assert_eq!(
        rows,
        vec![
            ("park".to_string(), "The Park".to_string(), "1".to_string(), "The Park!".to_string()),
            ("pier".to_string(), "The Pier".to_string(), "2".to_string(), "The Pier!".to_string()),
            ("done".to_string(), "Done".to_string(), "done".to_string(), "Confirm selection".to_string()),
        ]
    );
}

#[test]
fn dynamic_menu_uses_generated_options_once_recorded() {
    let mut content = minimal_test_pack();
    content.menus.push(date_menu(true, 0));
    let mut state = WorldState::new(&content);
    state.active_menu_id = Some("date".to_string());
    let mut rt = CinderRuntime::from_state(content, state);
    assert_eq!(rt.pending_menu_generation(), Some("date".to_string()));
    assert_eq!(rt.menu_choice_options().unwrap().len(), 2);
    rt.record_generated_menu_options(
        "date",
        vec![("roof".to_string(), "The Roof".to_string(), "Up high".to_string())],
    );
    assert_eq!(rt.pending_menu_generation(), None);
    let options = rt.menu_choice_options().unwrap();
    assert_eq!(options.len(), 1);
    assert_eq!(options[0].id, "roof");
    assert_eq!(options[0].command, "1");
    assert_eq!(options[0].menu_text, "Up high");
}

#[test]
fn relocalize_story_vars_rewrites_the_pick_title() {
    let mut content = minimal_test_pack();
    content.menus.push(date_menu(true, 0));
    let mut state = WorldState::new(&content);
    state.story_vars.set_unchecked("date_id", "pier");
    state.story_vars.set_unchecked("date_title", "Old Title");
    let mut rt = CinderRuntime::from_state(content, state);
    rt.relocalize_story_vars();
    assert_eq!(rt.state().story_vars.get("date_title"), Some("The Pier"));
    assert_eq!(rt.state().story_vars.get("selection_title"), Some("The Pier"));
    rt.record_generated_menu_options("date", vec![("pier".to_string(), "Le Quai".to_string(), String::new())]);
    rt.relocalize_story_vars();
    assert_eq!(rt.state().story_vars.get("date_title"), Some("Le Quai"));
}

#[test]
fn relocalize_story_vars_leaves_unknown_picks_alone() {
    let mut content = minimal_test_pack();
    content.menus.push(date_menu(false, 0));
    let mut state = WorldState::new(&content);
    state.story_vars.set_unchecked("date_id", "moon");
    state.story_vars.set_unchecked("date_title", "Old Title");
    let mut rt = CinderRuntime::from_state(content, state);
    rt.relocalize_story_vars();
    assert_eq!(rt.state().story_vars.get("date_title"), Some("Old Title"));
    assert_eq!(rt.state().story_vars.get("selection_title"), None);
}

#[test]
fn the_cast_member_speaks_from_the_behavior_actor_context() {
    let mut content = minimal_test_pack();
    let mut member = cast_member("p1", "Pat", "blair");
    member.metadata.insert_str("char_age", "forty".to_string());
    member.metadata.insert_str("sub_fear", "silence".to_string());
    content.act_cast = vec![member];
    content.actors[0].prompt_context.character_notes.push("Warm.".to_string());
    content.actors[0].prompt_context.behavior_examples.push("Smiles.".to_string());
    let runtime = CinderRuntime::new(content);
    let blair = &runtime.content().actors[0];
    let context = resolved_actor_prompt_context(runtime.content(), runtime.state(), blair);
    assert_eq!(context.character_notes, vec!["Warm.", "You are Pat.", "age: forty."]);
    assert_eq!(context.subtext_notes, vec!["Carry the emotional residue of Pat sits down..", "fear: silence."]);
    assert_eq!(
        context.response_notes,
        vec!["You are in act 1. Respond as Pat would, without narrating future sessions."]
    );
    assert_eq!(context.behavior_examples, vec!["Smiles."]);
    let casey = &runtime.content().actors[1];
    let own = resolved_actor_prompt_context(runtime.content(), runtime.state(), casey);
    assert!(own.character_notes.is_empty());
}

fn menu_pack(max_selections: usize) -> ContentPack {
    let mut content = minimal_test_pack();
    let mut menu = date_menu(false, max_selections);
    menu.options[0].room_id = "kitchen".to_string();
    menu.options[1].host_actor_id = "casey".to_string();
    menu.selection_confirmation = "Chosen: {selection_title}".to_string();
    menu.opening_narrative_lines = vec!["Where to?".to_string()];
    content.menus.push(menu);
    content
}

#[test]
fn opening_a_menu_makes_it_active_and_tells_its_lines() {
    let content = menu_pack(0);
    let mut state = WorldState::new(&content);
    state.pending_menu_selections.push("stale".to_string());
    let mut lines = NarrativeLines::new();
    handle_menu_opened(&mut state, &content, "date", &mut lines);
    assert_eq!(state.active_menu_id, Some("date".to_string()));
    assert!(state.pending_menu_selections.is_empty());
    assert_eq!(lines.0.len(), 1);
    assert_eq!(lines.0[0].text, "Where to?");
    assert_eq!(lines.0[0].kind, NarrativeLineKind::Narration);
}

#[test]
fn a_single_pick_is_written_and_confirmed() {
    let content = menu_pack(0);
    let mut state = WorldState::new(&content);
    state.active_menu_id = Some("date".to_string());
    let mut lines = NarrativeLines::new();
    handle_menu_choice_made(&mut state, &content, "date", "pier", "The Pier", &mut lines);
    assert_eq!(state.active_menu_id, None);
    assert_eq!(state.story_vars.get("selection_title"), Some("The Pier"));
    assert_eq!(state.story_vars.get("date_title"), Some("The Pier"));
    assert_eq!(state.story_vars.get("date_id"), Some("pier"));
    assert_eq!(lines.0[0].text, "Chosen: The Pier");
}

#[test]
fn a_confirmed_multiple_pick_fills_the_slots() {
    let mut content = menu_pack(2);
    content.menus[0].multi_selection_var_keys = vec!["first".to_string(), "second".to_string()];
    content.menus[0].multi_selection_room_var_keys = vec!["room_a".to_string(), "room_b".to_string()];
    content.menus[0].multi_selection_host_var_keys = vec!["host_a".to_string()];
    let mut state = WorldState::new(&content);
    state.active_menu_id = Some("date".to_string());
    state.pending_menu_selections = vec!["pier".to_string(), "park".to_string(), "moon".to_string()];
    let mut lines = NarrativeLines::new();
    apply_menu_choice(&mut state, &content, "date", "done", "Done", &mut lines);
    assert_eq!(state.story_vars.get("selection_title"), Some("The Pier, The Park"));
    assert_eq!(state.story_vars.get("first"), Some("The Pier"));
    assert_eq!(state.story_vars.get("second"), Some("The Park"));
    assert_eq!(state.story_vars.get("room_a"), Some("kitchen"));
    assert_eq!(state.story_vars.get("room_b"), Some(""));
    assert_eq!(state.story_vars.get("host_a"), Some("casey"));
    assert_eq!(state.story_vars.get("date_title"), None);
    assert_eq!(state.story_vars.get("date_id"), Some("pier, park, moon"));
    assert!(state.pending_menu_selections.is_empty());
    assert_eq!(lines.0[0].text, "Chosen: The Pier, The Park");
}

#[test]
fn toggling_picks_respects_the_limit_and_unpicks_every_copy() {
    let content = menu_pack(2);
    let mut state = WorldState::new(&content);
    handle_menu_selection_toggled(&mut state, &content, "date", "park", true);
    handle_menu_selection_toggled(&mut state, &content, "date", "park", true);
    handle_menu_selection_toggled(&mut state, &content, "date", "pier", true);
    handle_menu_selection_toggled(&mut state, &content, "date", "roof", true);
    assert_eq!(state.pending_menu_selections, vec!["park".to_string(), "pier".to_string()]);
    handle_menu_selection_toggled(&mut state, &content, "date", "park", false);
    assert_eq!(state.pending_menu_selections, vec!["pier".to_string()]);
    handle_menu_selection_toggled(&mut state, &content, "nowhere", "roof", true);
    assert_eq!(state.pending_menu_selections, vec!["pier".to_string()]);
}


fn command_context<'a>(target: Option<&'a str>, consumable: Option<&'a str>) -> ActorCommandContext<'a> {
    ActorCommandContext {
        actor_id: "player",
        actor_name: "You",
        room_id: "lounge",
        target_room_id: None,
        target_actor_id: target,
        target_actor_name: None,
        context_label: None,
        feature_id: consumable.map(|_| "table"),
        consumable_id: consumable,
        freeform_text: None,
    }
}

#[test]
fn a_command_needing_an_absent_item_does_nothing() {
    let content = minimal_test_pack();
    let mut state = WorldState::new(&content);
    let mut cmd = command("study");
    cmd.effects = vec![CommandEffect::ObserveActor];
    cmd.available.requires_item = Some("lamp".to_string());
    assert!(!apply_actor_command_realization_effects(&mut state, &content, &cmd, &command_context(Some("blair"), None)));
    assert!(!state.actor_has_studied_actor("player", "blair"));
    state.add_item("lamp");
    assert!(apply_actor_command_realization_effects(&mut state, &content, &cmd, &command_context(Some("blair"), None)));
    assert!(state.actor_has_studied_actor("player", "blair"));
}

#[test]
fn command_effects_stop_at_the_first_that_cannot_take_place() {
    let content = minimal_test_pack();
    let mut state = WorldState::new(&content);
    let mut cmd = command("drop_then_study");
    cmd.item_id = "lamp".to_string();
    cmd.effects = vec![CommandEffect::DropItem, CommandEffect::ObserveActor];
    assert!(!apply_actor_command_realization_effects(&mut state, &content, &cmd, &command_context(Some("blair"), None)));
    assert!(!state.actor_has_studied_actor("player", "blair"));
    state.add_item("lamp");
    assert!(apply_actor_command_realization_effects(&mut state, &content, &cmd, &command_context(Some("blair"), None)));
    assert!(state.actor_has_studied_actor("player", "blair"));
}

#[test]
fn an_attack_needs_a_living_attackable_unallied_target() {
    let mut content = minimal_test_pack();
    content.settings.combat.health_stat_id = "stamina".to_string();
    let mut cmd = command("attack");
    cmd.effects = vec![CommandEffect::AttackTarget];
    let mut state = WorldState::new(&content);
    assert!(!apply_actor_command_realization_effects(&mut state, &content, &cmd, &command_context(Some("blair"), None)));
    content.actors[0].attackable = true;
    let mut state = WorldState::new(&content);
    assert!(apply_actor_command_realization_effects(&mut state, &content, &cmd, &command_context(Some("blair"), None)));
    assert!(!apply_actor_command_realization_effects(&mut state, &content, &cmd, &command_context(None, None)));
    state.set_stance("blair", ActorStance::Allied);
    assert!(!apply_actor_command_realization_effects(&mut state, &content, &cmd, &command_context(Some("blair"), None)));
}

#[test]
fn a_targeted_consumable_comes_from_the_feature_then_the_room() {
    let content = minimal_test_pack();
    let mut state = WorldState::new(&content);
    let mut cmd = command("eat");
    cmd.effects = vec![CommandEffect::ConsumeTargetedConsumable];
    let ctx = command_context(None, Some("apple"));
    assert!(!apply_actor_command_realization_effects(&mut state, &content, &cmd, &ctx));
    state.add_item_to_storage("apple", ItemStorageTarget::CurrentRoom, "lounge");
    assert!(apply_actor_command_realization_effects(&mut state, &content, &cmd, &ctx));
    assert!(!state.has_item_in_storage("apple", ItemStorageTarget::CurrentRoom, "lounge"));
    state.restock_feature_consumable("lounge", "table", "apple", 1);
    assert!(apply_actor_command_realization_effects(&mut state, &content, &cmd, &ctx));
    assert_eq!(state.remaining_consumable_stock("lounge", "table", "apple"), 0);
}

#[test]
fn the_drawn_start_room_index_picks_the_start_room() {
    let mut content = minimal_test_pack();
    content.opening.start_room_ids = vec!["lounge".to_string(), "kitchen".to_string()];
    assert_eq!(WorldState::new_with_start_index(&content, 1).current_room_id, "kitchen");
    assert_eq!(WorldState::new_with_start_index(&content, 0).current_room_id, "lounge");
    content.opening.start_room_ids.clear();
    assert_eq!(WorldState::new_with_start_index(&content, 7).current_room_id, "lounge");
}

use cinder_core::content::ActorPromptContext;
use cinder_core::content::{BeatObjectivesDefinition, 
    ActClosureDefinition, ActorDefinition, AllyAttackMode, AllyAttackParticipants, AllyAttackPolicy, BeatDefinition,
    BeatsDefinition, CombatSettingsDefinition, ContentPack, ContentSettingsDefinition, ErrorText, LevelsDefinition,
    OpeningDefinition, PartySettings, PresentationDefinition, PresentationText, RoomDefinition,
    StageAssignmentDefinition, StatDefinition, StatsDefinition, SurroundRule, UiText, XpDistribution,
    XpDistributionMode, XpRecipientMode,
};
use cinder_core::runtime::CinderRuntime;
use cinder_core::smap::StrMap;
use cinder_core::stage_assignment::{StageAssignment, StageAssignmentScore};
use cinder_core::state::{GamePhase, TurnOutcome, WorldState};

fn blank_text() -> PresentationText {
    PresentationText {
        room_observation: String::new(),
        features: String::new(),
        people: String::new(),
        exits: String::new(),
        loose_items: String::new(),
        objective: String::new(),
        ally_suffix: String::new(),
        hostile_suffix: String::new(),
        feature_consumables: String::new(),
        actor_speech: String::new(),
        actor_targeted_speech: String::new(),
    }
}

fn no_card() -> ActClosureDefinition {
    ActClosureDefinition { title: String::new(), subtitle_template: String::new(), sections: Vec::new() }
}

fn plain_room(id: &str, title: &str, summary: &str) -> RoomDefinition {
    RoomDefinition {
        id: id.to_string(),
        title: title.to_string(),
        summary: summary.to_string(),
        inspect_text: summary.to_string(),
        exits: Vec::new(),
        features: Vec::new(),
        descriptions: Vec::new(),
    }
}

fn cast_member(id: &str, name: &str, confidence: i32, stamina: i32, hunger: i32, pair: Option<(i32, i32, i32)>) -> ActorDefinition {
    let mut initial_stats = StrMap::new();
    initial_stats.insert_str("confidence", confidence);
    initial_stats.insert_str("stamina", stamina);
    initial_stats.insert_str("hunger", hunger);
    let mut initial_pair_stats = StrMap::new();
    if let Some((connection, attraction, safety)) = pair {
        let mut with_alex = StrMap::new();
        with_alex.insert_str("connection", connection);
        with_alex.insert_str("attraction", attraction);
        with_alex.insert_str("safety", safety);
        initial_pair_stats.insert_str("alex", with_alex);
    }
    ActorDefinition {
        id: id.to_string(),
        name: name.to_string(),
        room_id: "lounge".to_string(),
        tags: Vec::new(),
        initial_stats,
        initial_pair_stats,
        resistances: StrMap::new(),
        xp_drop: 0,
        level: 1,
        initial_hostile: false,
        inspect_text: String::new(),
        prompt_context: ActorPromptContext {
            character_notes: Vec::new(),
            subtext_notes: Vec::new(),
            response_notes: Vec::new(),
            behavior_examples: Vec::new(),
        },
        attackable: false,
        attack_kind: None,
        attack_interval_minutes: None,
        drops: StrMap::new(),
    }
}

fn split(label: &str, instructions: &str) -> StageAssignmentDefinition {
    StageAssignmentDefinition {
        selection_label: label.to_string(),
        prompt_instructions: instructions.to_string(),
        initiator_actor_id: String::new(),
        selected_room_id: String::new(),
        remaining_room_id: String::new(),
        selected_room_story_var: String::new(),
        remaining_room_story_var: String::new(),
        selected_host_story_var: String::new(),
        remaining_host_story_var: String::new(),
        max_selected_actors: 0,
        min_selected_actors: 0,
        score_threshold: 0,
        group_story_var_key: String::new(),
        remaining_group_story_var_key: String::new(),
        initiator_line_template: String::new(),
        selected_line_template: String::new(),
        remaining_line_template: String::new(),
    }
}

fn stage(id: &str, summary: &str, message: &str) -> BeatDefinition {
    BeatDefinition {
        id: id.to_string(),
        summary: summary.to_string(),
        update_message: message.to_string(),
        ..BeatDefinition::default()
    }
}

fn stage_assignment_test_pack() -> ContentPack {
    let stat = |default: i32| StatDefinition { default, min: None, max: None };
    let mut actor_stats = StrMap::new();
    actor_stats.insert_str("hunger", stat(0));
    actor_stats.insert_str("stamina", stat(0));
    actor_stats.insert_str("confidence", stat(0));
    let mut pair_stats = StrMap::new();
    pair_stats.insert_str("safety", stat(0));
    pair_stats.insert_str("attraction", stat(0));
    pair_stats.insert_str("connection", stat(0));

    let mut dinner_prep = stage("dinner-prep", "Prep", "Prep starts.");
    dinner_prep.beat_note = "Split the house.".to_string();
    dinner_prep.next_stage_ids = vec!["dinner".to_string()];
    let mut prep = split(
        "dinner prep",
        "Prefer the kitchen when someone would want to be near Alex through useful, practical closeness.",
    );
    prep.initiator_actor_id = "alex".to_string();
    prep.selected_room_id = "kitchen".to_string();
    prep.remaining_room_id = "lounge".to_string();
    prep.max_selected_actors = 2;
    prep.min_selected_actors = 1;
    prep.score_threshold = 50;
    prep.initiator_line_template =
        "{initiator_name} starts pulling the house toward the {selected_room_title} for {selection_label}.".to_string();
    prep.selected_line_template = "{selected_names} fall in with the plan.".to_string();
    prep.remaining_line_template = "{remaining_names} lag a step behind for the moment.".to_string();
    dinner_prep.stage_assignment = Some(prep);

    let mut activity = stage("activity-split", "Split", "Split starts.");
    activity.beat_note = "Split the house into two activities.".to_string();
    activity.next_stage_ids = vec!["after-split".to_string()];
    let mut act = split("activity split", "Divide the cast between two activity rooms.");
    act.selected_room_id = "patio".to_string();
    act.remaining_room_id = "studio".to_string();
    act.selected_room_story_var = "activity_room_a".to_string();
    act.remaining_room_story_var = "activity_room_b".to_string();
    act.selected_host_story_var = "activity_host_a".to_string();
    act.remaining_host_story_var = "activity_host_b".to_string();
    act.max_selected_actors = 1;
    act.min_selected_actors = 1;
    act.score_threshold = 0;
    act.group_story_var_key = "activity_group_a".to_string();
    act.remaining_group_story_var_key = "activity_group_b".to_string();
    activity.stage_assignment = Some(act);

    ContentPack {
        settings: ContentSettingsDefinition {
            combat: CombatSettingsDefinition {
                player_actor_id: "player".to_string(),
                health_stat_id: "health".to_string(),
                attack_stat_id: "attack".to_string(),
                defense_stat_id: "defense".to_string(),
                minimum_damage: 1,
                default_attack_interval_minutes: 10,
                player_defeat_text: String::new(),
                ally_attack: AllyAttackPolicy {
                    participants: AllyAttackParticipants::Disabled,
                    mode: AllyAttackMode::AttackStat,
                    contribution_percent: 0,
                    maximum_per_ally: None,
                },
                xp_distribution: XpDistribution { mode: XpDistributionMode::FullEach, recipients: XpRecipientMode::PlayerOnly },
            },
            party: PartySettings { initial_orders: StrMap::new() },
            equipment_slots: Vec::new(),
            level_reveal_room_prefix: String::new(),
            surround_rule: SurroundRule::Unrestricted,
            fallback_stage_id: String::new(),
            fallback_required_story_vars: Vec::new(),
            starting_items: Vec::new(),
            channel_surfing_only: false,
            closure_perspective_actor_id: String::new(),
        },
        opening: OpeningDefinition {
            start_room_id: "lounge".to_string(),
            start_room_ids: Vec::new(),
            start_time_minutes: 1080,
            intro_text: String::new(),
            help_text: String::new(),
        },
        rooms: vec![
            plain_room("lounge", "Lounge", "A shared lounge."),
            plain_room("kitchen", "Kitchen", "A warm kitchen."),
            plain_room("patio", "Patio", "A quiet patio."),
            plain_room("studio", "Studio", "A focused studio."),
        ],
        actors: vec![
            cast_member("alex", "Alex", 5, 8, 3, None),
            cast_member("blair", "Blair", 3, 6, 5, Some((4, 2, 3))),
            cast_member("casey", "Casey", 7, 7, 4, Some((2, 3, 1))),
            cast_member("devon", "Devon", 1, 9, 2, Some((1, 0, 2))),
        ],
        items: Vec::new(),
        stats: StatsDefinition { actor: actor_stats, pair: pair_stats },
        levels: LevelsDefinition { default: Vec::new(), actors: StrMap::new() },
        messages: StrMap::new(),
        variables: StrMap::new(),
        beats: BeatsDefinition {
            initial_stage_ids: vec!["dinner-prep".to_string()],
            stages: vec![
                dinner_prep,
                stage("dinner", "Dinner", "Dinner starts."),
                activity,
                stage("after-split", "After split", "After split."),
            ],
        },
        movies: Vec::new(),
        act_cast: Vec::new(),
        presentation: PresentationDefinition {
            presentation_text: blank_text(),
            error_text: ErrorText { feature_unknown: String::new(), room_missing: String::new(), actor_unknown: String::new() },
        },
        ui_text: UiText {
            follow_nobody_option: String::new(),
            follow_actor_transcript: "You follow {title}.".to_string(),
            follow_actor_stop_transcript: "You stop following.".to_string(),
            final_summary_empty_preview: String::new(),
            act_closure_empty_highlights: String::new(),
            act_closure_empty_relationships: String::new(),
            act_closure: no_card(),
            game_closure: no_card(),
        },
        beat_objectives: BeatObjectivesDefinition { objectives: Vec::new() },
        menus: Vec::new(),
    }
}

fn score(actor_id: &str, selection_score: i32, rationale: &str) -> StageAssignmentScore {
    StageAssignmentScore { actor_id: actor_id.to_string(), selection_score, rationale: rationale.to_string() }
}

fn dinner_prep_assignment() -> StageAssignment {
    StageAssignment {
        assignments: vec![
            score("blair", 90, "already leaning toward Alex"),
            score("casey", 82, "likes the energy in the kitchen"),
            score("devon", 15, "hangs back in the lounge"),
        ],
    }
}

fn activity_split_state(content: &ContentPack) -> WorldState {
    let mut state = WorldState::new(content);
    state.active_objective_stage_ids = vec!["activity-split".to_string()];
    state.story_vars.set_unchecked("activity_room_a", "patio");
    state.story_vars.set_unchecked("activity_room_b", "studio");
    state.story_vars.set_unchecked("activity_host_a", "devon");
    state.story_vars.set_unchecked("activity_host_b", "alex");
    state
}

fn activity_split_assignment() -> StageAssignment {
    StageAssignment {
        assignments: vec![score("casey", 90, "joins the patio activity"), score("blair", 20, "stays with the studio activity")],
    }
}

fn quiet_turn() -> TurnOutcome {
    TurnOutcome { text: String::new(), phase: GamePhase::Active, lines: Vec::new() }
}

#[test]
fn stage_assignment_caps_selected_actors_and_marks_stage_complete() {
    let content = stage_assignment_test_pack();
    let state = WorldState::new(&content);
    let mut runtime = CinderRuntime::from_state(content, state);
    let assignment = dinner_prep_assignment();

    let first = runtime.apply_stage_assignments(quiet_turn(), Some(&assignment));
    let exported = runtime.state();
    assert!(first.text.contains("Alex starts pulling the house toward the Kitchen for dinner prep."));
    assert_eq!(exported.story_vars.get("alex_assigned_room"), Some("kitchen"));
    assert_eq!(exported.story_vars.get("blair_assigned_room"), Some("kitchen"));
    assert_eq!(exported.story_vars.get("casey_assigned_room"), Some("kitchen"));
    assert_eq!(exported.story_vars.get("devon_assigned_room"), Some("lounge"));
    assert_eq!(exported.story_vars.get("stage_assignment_applied:dinner-prep"), Some("true"));
    assert_eq!(exported.actor_room_overrides.len(), 0);

    let second = runtime.apply_stage_assignments(quiet_turn(), Some(&assignment));
    assert!(second.text.is_empty());
}

#[test]
fn stage_assignment_assigns_activity_hosts_via_story_vars_only() {
    let content = stage_assignment_test_pack();
    let state = activity_split_state(&content);
    let mut runtime = CinderRuntime::from_state(content, state);
    runtime.apply_stage_assignments(quiet_turn(), Some(&activity_split_assignment()));
    let exported = runtime.state();
    assert_eq!(exported.story_vars.get("activity_group_a"), Some("casey,devon"), "selected group must include the anchored host");
    assert_eq!(exported.story_vars.get("activity_group_b"), Some("alex,blair"), "remaining group must include the anchored host");
    assert_eq!(exported.story_vars.get("devon_assigned_room"), Some("patio"));
    assert_eq!(exported.story_vars.get("alex_assigned_room"), Some("studio"));
    assert_eq!(exported.actor_room_overrides.len(), 0);
}

#[test]
fn dinner_prep_split_is_told_in_three_sentences() {
    let content = stage_assignment_test_pack();
    let state = WorldState::new(&content);
    let mut runtime = CinderRuntime::from_state(content, state);
    let request = runtime.stage_assignment_request().expect("split due");
    assert_eq!(request.0.stage_id, "dinner-prep");
    assert_eq!(request.0.selected_room_title, "Kitchen");
    assert_eq!(request.0.initiator_actor_name, "Alex");
    let ids: Vec<&str> = request.0.candidates.iter().map(|c| c.actor_id.as_str()).collect();
    assert_eq!(ids, vec!["blair", "casey", "devon"]);
    assert_eq!(request.0.candidates[0].pair_stats_with_initiator.get_str("connection"), Some(&4));
    let outcome = runtime.apply_stage_assignments(
        TurnOutcome { text: "You set the table.".to_string(), phase: GamePhase::Active, lines: Vec::new() },
        Some(&dinner_prep_assignment()),
    );
    assert_eq!(
        outcome.text,
        "You set the table.\n\nAlex starts pulling the house toward the Kitchen for dinner prep. Alex, Blair, and Casey fall in with the plan. Devon lag a step behind for the moment."
    );
    assert!(runtime.stage_assignment_request().is_none());
}

#[test]
fn fallback_scores_favour_those_already_in_the_selected_room() {
    let content = stage_assignment_test_pack();
    let mut state = WorldState::new(&content);
    state.actor_room_overrides.insert_str("devon", "kitchen".to_string());
    let mut runtime = CinderRuntime::from_state(content, state);
    let outcome = runtime.apply_stage_assignments(quiet_turn(), None);
    assert!(outcome.text.contains("Alex, Blair, and Devon fall in with the plan."), "{}", outcome.text);
    assert_eq!(runtime.state().story_vars.get("casey_assigned_room"), Some("lounge"));
}

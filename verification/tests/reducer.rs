use cinder_core::content::ActorPromptContext;
use cinder_core::content::{BeatObjectivesDefinition, 
    ActClosureDefinition, ErrorText, UiText, ActorDefinition, FeatureConsumableDefinition, AllyAttackMode, AllyAttackParticipants, AllyAttackPolicy, BeatsDefinition,
    CombatSettingsDefinition, ContentPack, ContentSettingsDefinition, ItemDefinition, ItemStorageTarget,
    LevelDefinition, LevelsDefinition, OpeningDefinition, PackMessage, PartySettings, PresentationDefinition,
    PresentationText, RoomDefinition, RoomDescriptionOverride, RoomExitDefinition, RoomFeatureDefinition,
    StatDefinition, StatsDefinition, SurroundRule, XpDistribution, XpDistributionMode, XpRecipientMode,
};
use cinder_core::narrative::NarrativeLines;
use cinder_core::reducer::combat::{award_defeat_xp, distribute_xp, resisted_damage, xp_recipients};
use cinder_core::reducer::attacks::{apply_attack_target, handle_hostile_strike};
use cinder_core::reducer::observation::{group_duplicate_names, render_room_observation, ObservationMode};
use cinder_core::reducer::handlers::items::{handle_item_consumed, handle_item_observed, handle_player_took_item};
use cinder_core::reducer::surround::surround_rule_passes;
use cinder_core::reducer::handlers::observation::{
    handle_actor_observed, handle_actor_observed_actor, handle_actor_observed_room, handle_current_room_observed,
    handle_feature_observed, ActorObservationContext,
};
use cinder_core::reducer::handlers::party::handle_player_followed_actor;
use cinder_core::reducer::observation::render_feature_consumables_line;
use cinder_core::narrative::NarrativeLineKind;
use cinder_core::panels::{follow_actor_options, panel_options, room_interactable_options, PanelOption};
use cinder_core::content::PanelDataSource;
use cinder_core::smap::StrMap;
use cinder_core::state::{ActorRelationship, ActorStance, GamePhase, WorldState};
use cinder_core::turn_policies::story_var_is_truthy;

const ACTOR_A_ID: &str = "alex";
const ACTOR_A_NAME: &str = "Alex";
const ACTOR_B_ID: &str = "blair";
const ACTOR_B_NAME: &str = "Blair";
const ACTOR_C_ID: &str = "casey";
const ACTOR_C_NAME: &str = "Casey";
const LOUNGE_ID: &str = "lounge";
const KITCHEN_ID: &str = "kitchen";

fn stat(default: i32) -> StatDefinition {
    StatDefinition { default, min: None, max: None }
}

fn test_actor(id: &str, name: &str, room_id: &str) -> ActorDefinition {
    ActorDefinition {
        id: id.to_string(),
        name: name.to_string(),
        room_id: room_id.to_string(),
        tags: Vec::new(),
        initial_stats: StrMap::new(),
        initial_pair_stats: StrMap::new(),
        resistances: StrMap::new(),
        xp_drop: 0,
        level: 1,
        initial_hostile: false,
        inspect_text: String::new(),
        prompt_context: ActorPromptContext {
            character_notes: Vec::new(),
            subtext_notes: Vec::new(),
            response_notes: Vec::new(),
            behavior_examples: Vec::new(),
        },
        attackable: false,
        attack_kind: None,
        attack_interval_minutes: None,
        drops: StrMap::new(),
    }
}

fn item(id: &str, label: &str) -> ItemDefinition {
    ItemDefinition {
        id: id.to_string(),
        label: label.to_string(),
        stat_bonuses: StrMap::new(),
        equip_slot: String::new(),
        extra_slots: Vec::new(),
        use_hook: String::new(),
        equip_hook: String::new(),
        consumed_on_surround_conversion: false,
        look_description: String::new(),
        takeable: true,
        description: format!("A {label}."),
    }
}

fn closure_definition() -> ActClosureDefinition {
    ActClosureDefinition { title: String::new(), subtitle_template: String::new(), sections: Vec::new() }
}

fn reducer_ui_text() -> UiText {
    UiText {
        follow_nobody_option: "Nobody".to_string(),
        follow_actor_transcript: "You follow {title}.".to_string(),
        follow_actor_stop_transcript: "You stop following.".to_string(),
        final_summary_empty_preview: String::new(),
        act_closure_empty_highlights: String::new(),
        act_closure_empty_relationships: String::new(),
        act_closure: closure_definition(),
        game_closure: closure_definition(),
    }
}

fn presentation_text() -> PresentationText {
    PresentationText {
        room_observation: String::new(),
        features: String::new(),
        people: String::new(),
        exits: String::new(),
        loose_items: String::new(),
        objective: String::new(),
        ally_suffix: String::new(),
        hostile_suffix: String::new(),
        feature_consumables: String::new(),
        actor_speech: "{actor_name}: {text}".to_string(),
        actor_targeted_speech: "{actor_name} (to {target_name}): {text}".to_string(),
    }
}

/// Two rooms (a lounge with a sofa, a kitchen), Alex and Blair in the
/// lounge and Casey in the kitchen.
fn reducer_test_pack() -> ContentPack {
    let mut actor_stats = StrMap::new();
    actor_stats.insert_str("hunger", stat(0));
    actor_stats.insert_str("stamina", stat(5));
    actor_stats.insert_str("confidence", stat(0));
    let mut pair_stats = StrMap::new();
    pair_stats.insert_str("safety", stat(0));
    pair_stats.insert_str("attraction", stat(0));
    pair_stats.insert_str("connection", stat(0));
    ContentPack {
        settings: ContentSettingsDefinition {
            combat: CombatSettingsDefinition {
                player_actor_id: "player".to_string(),
                health_stat_id: "health".to_string(),
                attack_stat_id: "attack".to_string(),
                defense_stat_id: "defense".to_string(),
                minimum_damage: 1,
                default_attack_interval_minutes: 10,
                player_defeat_text: String::new(),
                ally_attack: AllyAttackPolicy {
                    participants: AllyAttackParticipants::Disabled,
                    mode: AllyAttackMode::AttackStat,
                    contribution_percent: 0,
                    maximum_per_ally: None,
                },
                xp_distribution: XpDistribution {
                    mode: XpDistributionMode::FullEach,
                    recipients: XpRecipientMode::PlayerAndFollowers,
                },
            },
            party: PartySettings { initial_orders: StrMap::new() },
            equipment_slots: Vec::new(),
            level_reveal_room_prefix: String::new(),
            surround_rule: SurroundRule::Unrestricted,
            fallback_stage_id: String::new(),
            fallback_required_story_vars: Vec::new(),
            starting_items: Vec::new(),
            channel_surfing_only: false,
            closure_perspective_actor_id: String::new(),
        },
        opening: OpeningDefinition {
            start_room_id: LOUNGE_ID.to_string(),
            start_room_ids: Vec::new(),
            start_time_minutes: 1080,
            intro_text: String::new(),
            help_text: String::new(),
        },
        rooms: vec![
            RoomDefinition {
                id: LOUNGE_ID.to_string(),
                title: "Lounge".to_string(),
                summary: "A comfortable lounge.".to_string(),
                inspect_text: "The lounge feels lived in.".to_string(),
                exits: vec![RoomExitDefinition {
                    room_id: KITCHEN_ID.to_string(),
                    label: "Kitchen".to_string(),
                    requires_story_var: String::new(),
                    menu_label: None,
                }],
                features: vec![RoomFeatureDefinition {
                    id: "sofa".to_string(),
                    label: "long sofa".to_string(),
                    aliases: vec!["sofa".to_string()],
                    inspect_text: "A sagging sofa.".to_string(),
                    consumables: Vec::new(),
                }],
                descriptions: Vec::new(),
            },
            RoomDefinition {
                id: KITCHEN_ID.to_string(),
                title: "Kitchen".to_string(),
                summary: "A quiet kitchen.".to_string(),
                inspect_text: "The kitchen is tidy and bright.".to_string(),
                exits: vec![RoomExitDefinition {
                    room_id: LOUNGE_ID.to_string(),
                    label: "Lounge".to_string(),
                    requires_story_var: String::new(),
                    menu_label: None,
                }],
                features: Vec::new(),
                descriptions: Vec::new(),
            },
        ],
        actors: vec![
            test_actor(ACTOR_A_ID, ACTOR_A_NAME, LOUNGE_ID),
            test_actor(ACTOR_B_ID, ACTOR_B_NAME, LOUNGE_ID),
            test_actor(ACTOR_C_ID, ACTOR_C_NAME, KITCHEN_ID),
        ],
        items: Vec::new(),
        stats: StatsDefinition { actor: actor_stats, pair: pair_stats },
        levels: LevelsDefinition { default: Vec::new(), actors: StrMap::new() },
        messages: StrMap::new(),
        variables: StrMap::new(),
        beats: BeatsDefinition { initial_stage_ids: Vec::new(), stages: Vec::new() },
        movies: Vec::new(),
        act_cast: Vec::new(),
        presentation: PresentationDefinition {
            presentation_text: presentation_text(),
            error_text: ErrorText {
                feature_unknown: "You see nothing like that.".to_string(),
                room_missing: "That place is gone.".to_string(),
                actor_unknown: "No one by that name.".to_string(),
            },
        },
        ui_text: reducer_ui_text(),
        beat_objectives: BeatObjectivesDefinition { objectives: Vec::new() },
        menus: Vec::new(),
    }
}

#[test]
fn room_observation_annotates_present_actors_by_stance() {
    let mut pack = reducer_test_pack();
    pack.presentation.presentation_text.ally_suffix = " (ally)".to_string();
    pack.presentation.presentation_text.hostile_suffix = " (enemy)".to_string();
    pack.presentation.presentation_text.room_observation = "{room_title} {body} {people}".to_string();
    pack.presentation.presentation_text.people = "Here: {people}.".to_string();
    let mut state = WorldState::new(&pack);
    state.current_room_id = LOUNGE_ID.to_string();
    state.set_stance(ACTOR_A_ID, ActorStance::Allied);
    state.set_stance(ACTOR_B_ID, ActorStance::Hostile);

    let text = render_room_observation(&pack, &state, LOUNGE_ID, ObservationMode::Summary)
        .expect("room observation")
        .to_text();

    assert!(text.contains("Alex (ally)"), "got: {text}");
    assert!(text.contains("Blair (enemy)"), "got: {text}");
}

#[test]
fn room_observation_lists_loose_items_on_the_ground() {
    let mut pack = reducer_test_pack();
    pack.presentation.presentation_text.room_observation = "{room_title} {body} {items} {people}".to_string();
    pack.presentation.presentation_text.loose_items = "On the ground: {items}.".to_string();
    pack.presentation.presentation_text.people = "Here: {people}.".to_string();
    pack.items.push(item("stone-marker", "stone marker"));

    let mut state = WorldState::new(&pack);
    state.current_room_id = LOUNGE_ID.to_string();
    state.add_item_to_storage("stone-marker", ItemStorageTarget::CurrentRoom, LOUNGE_ID);

    let text = render_room_observation(&pack, &state, LOUNGE_ID, ObservationMode::Summary)
        .expect("room observation")
        .to_text();

    assert!(text.contains("On the ground: stone marker."), "got: {text}");

    state.current_room_id = KITCHEN_ID.to_string();
    let empty = render_room_observation(&pack, &state, KITCHEN_ID, ObservationMode::Summary)
        .expect("kitchen observation")
        .to_text();
    assert!(!empty.contains("On the ground"), "got: {empty}");
}

#[test]
fn room_observation_switches_to_defeat_override_description_once_actor_falls() {
    let mut pack = reducer_test_pack();
    pack.presentation.presentation_text.room_observation = "{room_title} {body}".to_string();
    pack.settings.combat.player_actor_id = ACTOR_A_ID.to_string();
    pack.settings.combat.health_stat_id = "stamina".to_string();
    let kitchen = pack.rooms.iter_mut().find(|room| room.id == KITCHEN_ID).expect("kitchen room");
    kitchen.descriptions.push(RoomDescriptionOverride {
        actor_defeated: ACTOR_C_ID.to_string(),
        summary: "The quiet kitchen is empty now.".to_string(),
        inspect_text: "No one stands in the quiet kitchen.".to_string(),
    });
    let mut state = WorldState::new(&pack);

    let before = render_room_observation(&pack, &state, KITCHEN_ID, ObservationMode::Summary)
        .expect("room observation")
        .to_text();
    assert!(before.contains("quiet kitchen"), "got: {before}");

    let mut casey = StrMap::new();
    casey.insert_str("stamina", 0);
    state.actor_stats.insert_str(ACTOR_C_ID, casey);
    let after = render_room_observation(&pack, &state, KITCHEN_ID, ObservationMode::Summary)
        .expect("room observation")
        .to_text();
    assert!(after.contains("empty now"), "got: {after}");
}

#[test]
fn room_observation_lists_features_exits_and_the_objective() {
    let mut pack = reducer_test_pack();
    pack.presentation.presentation_text.room_observation = "{body}|{features}|{exits}|{people}".to_string();
    pack.presentation.presentation_text.features = "You see {features}.".to_string();
    pack.presentation.presentation_text.exits = "Exits: {exits}.".to_string();
    pack.presentation.presentation_text.people = "Here: {people}.".to_string();
    pack.rooms[0].exits.push(RoomExitDefinition {
        room_id: "cellar".to_string(),
        label: "Cellar".to_string(),
        requires_story_var: "cellar_open".to_string(),
        menu_label: None,
    });
    let mut state = WorldState::new(&pack);
    let lines = render_room_observation(&pack, &state, LOUNGE_ID, ObservationMode::Detailed).expect("lounge");
    assert_eq!(lines.0.len(), 2);
    assert_eq!(lines.0[0].text, "== Lounge ==");
    assert_eq!(
        lines.0[1].text,
        "The lounge feels lived in.|You see long sofa.|Exits: Kitchen.|Here: Alex, Blair."
    );
    state.story_vars.set_unchecked("cellar_open", " TRUE ");
    let lines = render_room_observation(&pack, &state, LOUNGE_ID, ObservationMode::Summary).expect("lounge");
    assert_eq!(
        lines.0[1].text,
        "A comfortable lounge.|You see long sofa.|Exits: Kitchen, Cellar.|Here: Alex, Blair."
    );
    assert!(render_room_observation(&pack, &state, "attic", ObservationMode::Summary).is_none());
}

#[test]
fn duplicate_names_are_grouped_in_first_seen_order() {
    let names = vec!["warden".to_string(), "Blair".to_string(), "warden".to_string(), "warden".to_string()];
    assert_eq!(group_duplicate_names(&names), vec!["warden ×3".to_string(), "Blair".to_string()]);
    assert!(group_duplicate_names(&Vec::new()).is_empty());
}

#[test]
fn falsy_story_values_are_not_truthy() {
    let pack = reducer_test_pack();
    let mut state = WorldState::new(&pack);
    assert!(!story_var_is_truthy(&state, "flag"));
    for value in ["", " false ", "FALSE", "0", "\t0\n"] {
        state.story_vars.set_unchecked("flag", value);
        assert!(!story_var_is_truthy(&state, "flag"), "{value:?}");
    }
    for value in ["true", "yes", "00", "no"] {
        state.story_vars.set_unchecked("flag", value);
        assert!(story_var_is_truthy(&state, "flag"), "{value:?}");
    }
}

#[test]
fn defeating_an_actor_awards_full_xp_to_every_party_member_with_own_curve_directly() {
    let mut pack = reducer_test_pack();
    pack.settings.combat.player_actor_id = ACTOR_A_ID.to_string();
    pack.settings.combat.health_stat_id = "stamina".to_string();
    let mut growth = StrMap::new();
    growth.insert_str("stamina", 5);
    pack.levels.default = vec![LevelDefinition { exp_required: 10, stat_changes: growth }];
    let mut slow_growth = StrMap::new();
    slow_growth.insert_str("stamina", 2);
    pack.levels.actors.insert_str(ACTOR_B_ID, vec![LevelDefinition { exp_required: 20, stat_changes: slow_growth }]);
    let mut goblin = test_actor("goblin", "goblin", LOUNGE_ID);
    goblin.xp_drop = 10;
    pack.actors.push(goblin);
    pack.messages.insert_str("combat.level_up", PackMessage::Narration("{actor_name} reaches Level {level}.".to_string()));

    let mut state = WorldState::new(&pack);
    state.set_relationship(ACTOR_B_ID, ActorRelationship { stance: ActorStance::Allied, follows_player: true });
    let alex_before = state.actor_stat(ACTOR_A_ID, "stamina");
    let mut lines = NarrativeLines::new();

    award_defeat_xp(&mut state, &pack, "goblin", &mut lines);

    assert_eq!(state.actor_xp(ACTOR_A_ID), 0);
    assert_eq!(state.actor_level(ACTOR_A_ID), 2);
    assert_eq!(state.actor_xp(ACTOR_B_ID), 10);
    assert_eq!(state.actor_level(ACTOR_B_ID), 1);
    assert_eq!(state.actor_stat(ACTOR_A_ID, "stamina"), alex_before + 5);
    let texts: Vec<&str> = lines.0.iter().map(|line| line.text.as_str()).collect();
    assert_eq!(texts, vec!["Alex reaches Level 2."]);
}

#[test]
fn experience_can_be_split_between_recipients() {
    assert_eq!(distribute_xp(10, 3, XpDistributionMode::SplitEvenly), vec![4, 3, 3]);
    assert_eq!(distribute_xp(10, 2, XpDistributionMode::FullEach), vec![10, 10]);
    assert!(distribute_xp(10, 0, XpDistributionMode::SplitEvenly).is_empty());

    let mut pack = reducer_test_pack();
    pack.settings.combat.player_actor_id = ACTOR_A_ID.to_string();
    let mut state = WorldState::new(&pack);
    state.set_follows_player(ACTOR_C_ID, true);
    state.set_follows_player(ACTOR_B_ID, true);
    state.set_follows_player(ACTOR_A_ID, true);
    assert_eq!(
        xp_recipients(&state, &pack),
        vec![ACTOR_A_ID.to_string(), ACTOR_B_ID.to_string(), ACTOR_C_ID.to_string()]
    );
    pack.settings.combat.xp_distribution.recipients = XpRecipientMode::PlayerOnly;
    assert_eq!(xp_recipients(&state, &pack), vec![ACTOR_A_ID.to_string()]);
}

#[test]
fn resistance_reduces_damage_but_never_below_zero() {
    let mut pack = reducer_test_pack();
    pack.actors[1].resistances.insert_str("fire", 3);
    pack.actors[2].resistances.insert_str("fire", -2);
    assert_eq!(resisted_damage(&pack, ACTOR_B_ID, "fire", 5), 2);
    assert_eq!(resisted_damage(&pack, ACTOR_B_ID, "fire", 2), 0);
    assert_eq!(resisted_damage(&pack, ACTOR_C_ID, "fire", 5), 7);
    assert_eq!(resisted_damage(&pack, ACTOR_A_ID, "fire", 5), 5);
    assert_eq!(resisted_damage(&pack, "nobody", "fire", 5), 5);
}

fn panel(o: &PanelOption) -> (String, String, String, String) {
    (o.id.clone(), o.title.clone(), o.command.clone(), o.menu_text.clone())
}

fn entries(options: &[PanelOption]) -> Vec<(String, String, String, String)> {
    options.iter().map(panel).collect()
}

fn row(id: &str, title: &str, command: &str, menu_text: &str) -> (String, String, String, String) {
    (id.to_string(), title.to_string(), command.to_string(), menu_text.to_string())
}

#[test]
fn actor_panel_lists_living_actors_in_the_current_room() {
    let pack = reducer_test_pack();
    let mut state = WorldState::new(&pack);
    state.current_room_id = LOUNGE_ID.to_string();
    let options = panel_options(&pack, &state, PanelDataSource::ActorsInRoom);
    assert_eq!(
        entries(&options),
        vec![row("actor:alex", "Alex", "talk to alex", "Alex"), row("actor:blair", "Blair", "talk to blair", "Blair")]
    );
    state.current_room_id = KITCHEN_ID.to_string();
    let options = panel_options(&pack, &state, PanelDataSource::ActorsInRoom);
    assert_eq!(entries(&options), vec![row("actor:casey", "Casey", "talk to casey", "Casey")]);
}

#[test]
fn exit_panel_uses_menu_labels_and_hides_gated_exits() {
    let mut pack = reducer_test_pack();
    pack.rooms[0].exits[0].menu_label = Some("Back to the stove".to_string());
    pack.rooms[0].exits.push(RoomExitDefinition {
        room_id: "cellar".to_string(),
        label: "Cellar".to_string(),
        requires_story_var: "cellar_open".to_string(),
        menu_label: None,
    });
    let mut state = WorldState::new(&pack);
    state.current_room_id = LOUNGE_ID.to_string();
    let options = panel_options(&pack, &state, PanelDataSource::Exits);
    assert_eq!(entries(&options), vec![row("kitchen", "Back to the stove", "kitchen", "Back to the stove")]);

    pack.settings.channel_surfing_only = true;
    let options = panel_options(&pack, &state, PanelDataSource::Exits);
    assert_eq!(
        entries(&options),
        vec![row("lounge", "Lounge", "lounge", "Lounge"), row("kitchen", "Back to the stove", "kitchen", "Back to the stove")]
    );

    state.current_room_id = "attic".to_string();
    assert!(panel_options(&pack, &state, PanelDataSource::Exits).is_empty());
}

#[test]
fn feature_panel_examines_by_first_alias() {
    let mut pack = reducer_test_pack();
    let mut state = WorldState::new(&pack);
    state.current_room_id = LOUNGE_ID.to_string();
    let options = panel_options(&pack, &state, PanelDataSource::Features);
    assert_eq!(entries(&options), vec![row("feature:sofa", "long sofa", "x sofa", "")]);
    pack.rooms[0].features[0].aliases.clear();
    let options = panel_options(&pack, &state, PanelDataSource::Features);
    assert_eq!(entries(&options), vec![row("feature:sofa", "long sofa", "x long sofa", "")]);
    assert!(panel_options(&pack, &state, PanelDataSource::CraftableItems).is_empty());
}

#[test]
fn inventory_panel_lists_unworn_items_in_id_order() {
    let mut pack = reducer_test_pack();
    pack.items.push(item("mug", "chipped mug"));
    pack.items.push(item("apple", "red apple"));
    let mut state = WorldState::new(&pack);
    state.add_item("mug");
    state.add_item("apple");
    state.add_item("zither");
    state.equipment.insert_str("hand", "zither".to_string());
    state.add_item("key");
    let options = panel_options(&pack, &state, PanelDataSource::InventoryItems);
    assert_eq!(
        entries(&options),
        vec![row("apple", "red apple", "drop apple", ""), row("key", "key", "drop key", ""), row("mug", "chipped mug", "drop mug", "")]
    );
}

#[test]
fn loose_item_panel_offers_only_takeable_known_items() {
    let mut pack = reducer_test_pack();
    pack.items.push(item("coin", "copper coin"));
    let mut anvil = item("anvil", "iron anvil");
    anvil.takeable = false;
    pack.items.push(anvil);
    let mut state = WorldState::new(&pack);
    state.current_room_id = LOUNGE_ID.to_string();
    state.add_item_to_storage("coin", ItemStorageTarget::CurrentRoom, LOUNGE_ID);
    state.add_item_to_storage("anvil", ItemStorageTarget::CurrentRoom, LOUNGE_ID);
    state.add_item_to_storage("ghost-item", ItemStorageTarget::CurrentRoom, LOUNGE_ID);
    let options = panel_options(&pack, &state, PanelDataSource::LooseRoomItems);
    assert_eq!(entries(&options), vec![row("coin", "copper coin", "take coin", "")]);
}

#[test]
fn interactable_panel_lists_room_features_actors_then_items() {
    let mut pack = reducer_test_pack();
    pack.items.push(item("coin", "copper coin"));
    pack.items.push(item("mug", "chipped mug"));
    pack.items.push(item("tea", "cup of tea"));
    pack.rooms[0].features[0].consumables.push(FeatureConsumableDefinition {
        id: "tea".to_string(),
        label: "tea".to_string(),
        initial_stock: 2,
    });
    let mut state = WorldState::new(&pack);
    state.current_room_id = LOUNGE_ID.to_string();
    state.add_item("mug");
    state.add_item("tea");
    state.add_item_to_storage("coin", ItemStorageTarget::CurrentRoom, LOUNGE_ID);
    state.restock_feature_consumable(LOUNGE_ID, "sofa", "tea", 2);
    let options = room_interactable_options(&pack, &state);
    assert_eq!(
        entries(&options),
        vec![
            row("__room__", "Lounge", "look", ""),
            row("feature:sofa", "long sofa", "x sofa", ""),
            row("actor:alex", "Alex", "look at alex", ""),
            row("actor:blair", "Blair", "look at blair", ""),
            row("item:coin", "copper coin", "look at copper coin", ""),
            row("item:mug", "chipped mug", "look at chipped mug", ""),
        ]
    );
}

#[test]
fn follow_panel_offers_nobody_then_each_actor_with_its_room() {
    let pack = reducer_test_pack();
    let state = WorldState::new(&pack);
    let options = follow_actor_options(&pack, &state);
    assert_eq!(
        entries(&options),
        vec![
            row("none", "Nobody", "none", "Nobody"),
            row("alex", "Alex", "alex", "Alex (Lounge)"),
            row("blair", "Blair", "blair", "Blair (Lounge)"),
            row("casey", "Casey", "casey", "Casey (Kitchen)"),
        ]
    );
}

fn texts_of(lines: &NarrativeLines) -> Vec<String> {
    lines.0.iter().map(|l| l.text.clone()).collect()
}

#[test]
fn consuming_an_item_names_who_used_it() {
    let mut pack = reducer_test_pack();
    pack.items.push(item("tea", "cup of tea"));
    pack.messages.insert_str("item.consumed_player", PackMessage::Narration("You drink the {label}.".to_string()));
    pack.messages.insert_str("item.consumed_actor", PackMessage::Narration("{consumer_name} drinks the {label}.".to_string()));
    pack.messages.insert_str("item.consumed_use", PackMessage::Narration("The {label} is gone.".to_string()));
    let mut state = WorldState::new(&pack);
    state.current_room_id = LOUNGE_ID.to_string();
    state.add_item("tea");
    state.add_item("tea");
    state.add_item("tea");
    let mut lines = NarrativeLines::new();
    handle_item_consumed(&mut state, &pack, "tea", ItemStorageTarget::PlayerInventory, Some("player"), None, &mut lines);
    handle_item_consumed(&mut state, &pack, "tea", ItemStorageTarget::PlayerInventory, Some(ACTOR_B_ID), Some("Blair"), &mut lines);
    handle_item_consumed(&mut state, &pack, "tea", ItemStorageTarget::PlayerInventory, None, None, &mut lines);
    handle_item_consumed(&mut state, &pack, "tea", ItemStorageTarget::PlayerInventory, None, None, &mut lines);
    assert_eq!(
        texts_of(&lines),
        vec!["You drink the cup of tea.".to_string(), "Blair drinks the cup of tea.".to_string(), "The cup of tea is gone.".to_string()]
    );
    assert!(!state.has_item("tea"));
}

#[test]
fn taking_an_item_moves_it_from_the_room_unless_it_is_fixed() {
    let mut pack = reducer_test_pack();
    pack.items.push(item("coin", "copper coin"));
    let mut anvil = item("anvil", "iron anvil");
    anvil.takeable = false;
    pack.items.push(anvil);
    pack.messages.insert_str("item.taken", PackMessage::Narration("Taken: {label}.".to_string()));
    pack.messages.insert_str("item.takedenied", PackMessage::Narration("The {label} will not budge.".to_string()));
    let mut state = WorldState::new(&pack);
    state.current_room_id = LOUNGE_ID.to_string();
    state.add_item_to_storage("coin", ItemStorageTarget::CurrentRoom, LOUNGE_ID);
    state.add_item_to_storage("anvil", ItemStorageTarget::CurrentRoom, LOUNGE_ID);
    let mut lines = NarrativeLines::new();
    handle_player_took_item(&mut state, &pack, "coin", &mut lines);
    handle_player_took_item(&mut state, &pack, "anvil", &mut lines);
    handle_player_took_item(&mut state, &pack, "coin", &mut lines);
    assert_eq!(texts_of(&lines), vec!["Taken: copper coin.".to_string(), "The iron anvil will not budge.".to_string()]);
    assert_eq!(state.item_count("coin"), 1);
    assert!(!state.has_item_in_storage("coin", ItemStorageTarget::CurrentRoom, LOUNGE_ID));
    assert!(state.has_item_in_storage("anvil", ItemStorageTarget::CurrentRoom, LOUNGE_ID));
}

#[test]
fn observing_an_item_tells_its_description() {
    let mut pack = reducer_test_pack();
    pack.items.push(item("coin", "copper coin"));
    let mut state = WorldState::new(&pack);
    let mut lines = NarrativeLines::new();
    handle_item_observed(&mut state, &pack, "coin", &mut lines);
    handle_item_observed(&mut state, &pack, "moon", &mut lines);
    assert_eq!(texts_of(&lines), vec!["A copper coin.".to_string(), "You see nothing like that.".to_string()]);
}

#[test]
fn surround_rule_weighs_player_against_target() {
    let mut pack = reducer_test_pack();
    pack.settings.combat.player_actor_id = ACTOR_A_ID.to_string();
    let state = WorldState::new(&pack);
    assert!(surround_rule_passes(&state, &pack, ACTOR_C_ID));
    pack.settings.surround_rule = SurroundRule::Resistance { stat: "stamina".to_string() };
    // Both at the stamina default of 5 and level 1: 5 + 1 < 5 + 2.
    assert!(!surround_rule_passes(&state, &pack, ACTOR_C_ID));
    let mut state = WorldState::new(&pack);
    state.adjust_actor_stat(ACTOR_A_ID, "stamina", 1).unwrap();
    assert!(surround_rule_passes(&state, &pack, ACTOR_C_ID));
}

#[test]
fn observing_a_missing_room_reports_an_error() {
    let pack = reducer_test_pack();
    let mut state = WorldState::new(&pack);
    let mut lines = NarrativeLines::new();
    handle_current_room_observed(&mut state, &pack, LOUNGE_ID, ObservationMode::Summary, &mut lines);
    assert_eq!(lines.0[0].text, "== Lounge ==");
    let mut lines = NarrativeLines::new();
    handle_current_room_observed(&mut state, &pack, "attic", ObservationMode::Summary, &mut lines);
    assert_eq!(texts_of(&lines), vec!["That place is gone.".to_string()]);
    assert_eq!(lines.0[0].kind, NarrativeLineKind::Error);
}

#[test]
fn observing_a_feature_names_what_it_offers() {
    let mut pack = reducer_test_pack();
    pack.presentation.presentation_text.feature_consumables = "On the {feature_label}: {items}.".to_string();
    pack.rooms[0].features[0].consumables.push(FeatureConsumableDefinition {
        id: "tea".to_string(),
        label: "tea".to_string(),
        initial_stock: 1,
    });
    pack.rooms[0].features[0].consumables.push(FeatureConsumableDefinition {
        id: "biscuit".to_string(),
        label: "biscuit".to_string(),
        initial_stock: 0,
    });
    let mut state = WorldState::new(&pack);
    state.restock_feature_consumable(LOUNGE_ID, "sofa", "tea", 1);
    let mut lines = NarrativeLines::new();
    handle_feature_observed(&mut state, &pack, LOUNGE_ID, "sofa", &mut lines);
    handle_feature_observed(&mut state, &pack, LOUNGE_ID, "piano", &mut lines);
    assert_eq!(
        texts_of(&lines),
        vec!["A sagging sofa.".to_string(), "On the long sofa: tea.".to_string(), "That place is gone.".to_string()]
    );
    state.add_item_to_storage("biscuit", ItemStorageTarget::CurrentRoom, LOUNGE_ID);
    assert_eq!(
        render_feature_consumables_line(&pack, &state, LOUNGE_ID, "sofa"),
        Some("On the long sofa: tea, biscuit.".to_string())
    );
}

#[test]
fn actors_looking_around_remember_it_and_are_seen_doing_so() {
    let mut pack = reducer_test_pack();
    pack.actors[2].inspect_text = "Casey hums.".to_string();
    pack.messages.insert_str(
        "observation.actor_inspects_room",
        PackMessage::Narration("{actor_name} looks around the {room_title}.".to_string()),
    );
    pack.messages.insert_str(
        "observation.actor_studies_actor",
        PackMessage::Narration("{actor_name} studies {target_actor_name}.".to_string()),
    );
    let mut state = WorldState::new(&pack);
    state.current_room_id = LOUNGE_ID.to_string();
    let mut lines = NarrativeLines::new();
    handle_actor_observed_room(&mut state, &pack, ACTOR_A_ID, ACTOR_A_NAME, LOUNGE_ID, &mut lines);
    handle_actor_observed_room(&mut state, &pack, ACTOR_C_ID, ACTOR_C_NAME, KITCHEN_ID, &mut lines);
    handle_actor_observed_actor(
        &mut state,
        &pack,
        LOUNGE_ID,
        &mut lines,
        ActorObservationContext { actor_id: ACTOR_A_ID, actor_name: ACTOR_A_NAME, target_actor_id: ACTOR_C_ID, target_actor_name: ACTOR_C_NAME },
    );
    handle_actor_observed(&mut state, &pack, ACTOR_C_ID, &mut lines);
    handle_actor_observed(&mut state, &pack, "ghost", &mut lines);
    assert_eq!(
        texts_of(&lines),
        vec![
            "Alex looks around the Lounge.".to_string(),
            "Alex studies Casey.".to_string(),
            "Casey hums.".to_string(),
            "No one by that name.".to_string(),
        ]
    );
    assert!(state.actor_has_observed_room(ACTOR_A_ID, LOUNGE_ID));
    assert!(state.actor_has_observed_room(ACTOR_C_ID, KITCHEN_ID));
    assert!(state.actor_has_studied_actor(ACTOR_A_ID, ACTOR_C_ID));
    assert_eq!(
        state.actor_recent_observation_notes(ACTOR_A_ID).to_vec(),
        vec!["The lounge feels lived in.".to_string(), "Casey hums.".to_string()]
    );
}

#[test]
fn following_an_actor_is_told_by_name() {
    let pack = reducer_test_pack();
    let mut state = WorldState::new(&pack);
    let mut lines = NarrativeLines::new();
    handle_player_followed_actor(&mut state, &pack, Some(ACTOR_B_ID), &mut lines);
    assert_eq!(state.followed_actor_id, Some(ACTOR_B_ID.to_string()));
    handle_player_followed_actor(&mut state, &pack, None, &mut lines);
    assert_eq!(state.followed_actor_id, None);
    assert_eq!(texts_of(&lines), vec!["You follow Blair.".to_string(), "You stop following.".to_string()]);
}

/// A pack where the player hits for 4 against a defence of 1, with the
/// messages an attack tells.
fn attack_pack(health: i32) -> ContentPack {
    let mut pack = reducer_test_pack();
    pack.stats.actor.insert_str("health", stat(health));
    pack.stats.actor.insert_str("attack", stat(4));
    pack.stats.actor.insert_str("defense", stat(1));
    pack.messages.insert_str("combat.attack_hit", PackMessage::Narration("{actor} takes {damage} ({remaining} left).".to_string()));
    pack.messages.insert_str("combat.actor_wakes_hostile", PackMessage::Narration("{actor} turns on you.".to_string()));
    pack.messages.insert_str("combat.actor_defeated", PackMessage::Narration("{actor} falls.".to_string()));
    pack.messages.insert_str("combat.no_effect", PackMessage::Narration("{actor} shrugs off the {kind} blow.".to_string()));
    pack
}

#[test]
fn attacking_a_neutral_actor_hurts_it_and_turns_it_hostile() {
    let pack = attack_pack(10);
    let mut state = WorldState::new(&pack);
    state.current_time_minutes = 100;
    let mut lines = NarrativeLines::new();

    apply_attack_target(&mut state, &pack, ACTOR_A_ID, LOUNGE_ID, &mut lines);

    assert_eq!(state.actor_stat(ACTOR_A_ID, "health"), 7);
    assert_eq!(state.stance(ACTOR_A_ID), ActorStance::Hostile);
    assert_eq!(state.next_hostile_strike_at.get_str(ACTOR_A_ID), Some(&110));
    assert_eq!(texts_of(&lines), vec!["Alex takes 3 (7 left).".to_string(), "Alex turns on you.".to_string()]);
}

#[test]
fn an_actor_with_its_own_strike_interval_strikes_on_its_own_time() {
    let mut pack = attack_pack(10);
    pack.actors[0].attack_interval_minutes = Some(25);
    let mut state = WorldState::new(&pack);
    state.current_time_minutes = 100;
    let mut lines = NarrativeLines::new();

    apply_attack_target(&mut state, &pack, ACTOR_A_ID, LOUNGE_ID, &mut lines);

    assert_eq!(state.next_hostile_strike_at.get_str(ACTOR_A_ID), Some(&125));
}

#[test]
fn an_attack_that_empties_health_defeats_the_target() {
    let pack = attack_pack(3);
    let mut state = WorldState::new(&pack);
    state.set_stance(ACTOR_A_ID, ActorStance::Hostile);
    let mut lines = NarrativeLines::new();

    apply_attack_target(&mut state, &pack, ACTOR_A_ID, LOUNGE_ID, &mut lines);

    assert_eq!(state.actor_stat(ACTOR_A_ID, "health"), 0);
    assert_eq!(state.relationship(ACTOR_A_ID), ActorRelationship { stance: ActorStance::Neutral, follows_player: false });
    assert_eq!(state.next_hostile_strike_at.get_str(ACTOR_A_ID), None);
    assert_eq!(texts_of(&lines), vec!["Alex takes 3 (0 left).".to_string(), "Alex falls.".to_string()]);
}

#[test]
fn an_ally_is_never_attacked() {
    let pack = attack_pack(10);
    let mut state = WorldState::new(&pack);
    state.set_stance(ACTOR_A_ID, ActorStance::Allied);
    let mut lines = NarrativeLines::new();

    apply_attack_target(&mut state, &pack, ACTOR_A_ID, LOUNGE_ID, &mut lines);

    assert_eq!(state.actor_stat(ACTOR_A_ID, "health"), 10);
    assert_eq!(state.stance(ACTOR_A_ID), ActorStance::Allied);
    assert!(lines.0.is_empty());
}

#[test]
fn a_fully_resisted_attack_does_no_harm_but_still_wakes_the_target() {
    let mut pack = attack_pack(10);
    pack.actors[0].resistances.insert_str("physical", 5);
    let mut state = WorldState::new(&pack);
    let mut lines = NarrativeLines::new();

    apply_attack_target(&mut state, &pack, ACTOR_A_ID, LOUNGE_ID, &mut lines);

    assert_eq!(state.actor_stat(ACTOR_A_ID, "health"), 10);
    assert_eq!(state.stance(ACTOR_A_ID), ActorStance::Hostile);
    assert_eq!(texts_of(&lines), vec!["Alex shrugs off the physical blow.".to_string(), "Alex turns on you.".to_string()]);
}

#[test]
fn allies_in_the_room_add_their_share_and_are_named() {
    let mut pack = attack_pack(20);
    pack.settings.combat.ally_attack = AllyAttackPolicy {
        participants: AllyAttackParticipants::AllAllies,
        mode: AllyAttackMode::AttackStat,
        contribution_percent: 50,
        maximum_per_ally: None,
    };
    pack.messages.insert_str("combat.ally_joins_attack", PackMessage::Narration("{actor} adds {damage}.".to_string()));
    let mut state = WorldState::new(&pack);
    state.set_stance(ACTOR_B_ID, ActorStance::Allied);
    let mut lines = NarrativeLines::new();

    apply_attack_target(&mut state, &pack, ACTOR_A_ID, LOUNGE_ID, &mut lines);

    assert_eq!(state.actor_stat(ACTOR_A_ID, "health"), 15);
    assert_eq!(texts_of(&lines), vec![
        "Alex takes 5 (15 left).".to_string(),
        "Blair adds 2.".to_string(),
        "Alex turns on you.".to_string(),
    ]);
}

#[test]
fn defeating_an_actor_awards_full_xp_to_every_party_member_with_own_curve() {
    let mut pack = reducer_test_pack();
    pack.settings.combat.player_actor_id = ACTOR_A_ID.to_string();
    pack.settings.combat.health_stat_id = "stamina".to_string();
    pack.settings.combat.attack_stat_id = "confidence".to_string();
    pack.settings.combat.defense_stat_id = "hunger".to_string();
    let mut growth = StrMap::new();
    growth.insert_str("stamina", 5);
    pack.levels.default = vec![LevelDefinition { exp_required: 10, stat_changes: growth }];
    let mut slow_growth = StrMap::new();
    slow_growth.insert_str("stamina", 2);
    pack.levels.actors.insert_str(ACTOR_B_ID, vec![LevelDefinition { exp_required: 20, stat_changes: slow_growth }]);
    pack.messages.insert_str("combat.level_up", PackMessage::Narration("{actor_name} reaches Level {level}.".to_string()));
    let mut goblin = test_actor("goblin", "goblin", LOUNGE_ID);
    goblin.attackable = true;
    goblin.initial_stats.insert_str("stamina", 1);
    goblin.xp_drop = 10;
    pack.actors.push(goblin);

    let mut state = WorldState::new(&pack);
    state.current_room_id = LOUNGE_ID.to_string();
    state.set_relationship(ACTOR_B_ID, ActorRelationship { stance: ActorStance::Allied, follows_player: true });
    let mut lines = NarrativeLines::new();

    apply_attack_target(&mut state, &pack, "goblin", LOUNGE_ID, &mut lines);

    assert!(state.actor_is_defeated("goblin", "stamina"));
    assert_eq!(state.actor_xp(ACTOR_A_ID), 0);
    assert_eq!(state.actor_level(ACTOR_A_ID), 2);
    assert_eq!(state.actor_xp(ACTOR_B_ID), 10);
    assert_eq!(state.actor_level(ACTOR_B_ID), 1);
    let transcripts = texts_of(&lines);
    assert!(
        transcripts.iter().any(|t| t.contains(ACTOR_A_NAME) && t.contains("Level 2")),
        "expected per-actor narration naming Alex at Level 2, got: {transcripts:?}"
    );
    assert!(
        !transcripts.iter().any(|t| t.contains(ACTOR_B_NAME) && t.contains("Level 2")),
        "Blair did not level; she should not be narrated, got: {transcripts:?}"
    );
    let alex_stamina = state.actor_stat(ACTOR_A_ID, "stamina");
    let blair_stamina = state.actor_stat(ACTOR_B_ID, "stamina");
    assert_eq!(alex_stamina, blair_stamina + 5, "Alex should be +5 stamina; Alex={alex_stamina}, Blair={blair_stamina}");
}

#[test]
fn defeating_an_actor_scatters_its_drops_into_the_room() {
    let mut pack = reducer_test_pack();
    pack.settings.combat.player_actor_id = ACTOR_A_ID.to_string();
    pack.settings.combat.health_stat_id = "stamina".to_string();
    pack.settings.combat.attack_stat_id = "confidence".to_string();
    pack.settings.combat.defense_stat_id = "hunger".to_string();
    pack.items.push(item("herb-salve", "herb salve"));
    let mut marker = item("stone-marker", "stone marker");
    marker.description = "A flat stone.".to_string();
    pack.items.push(marker);
    pack.messages.insert_str("combat.defeat_drop", PackMessage::Narration("Left behind: {items}.".to_string()));
    let mut golem = test_actor("golem", "dark golem", LOUNGE_ID);
    golem.attackable = true;
    golem.initial_stats.insert_str("stamina", 1);
    golem.drops.insert_str("herb-salve", 2);
    pack.actors.push(golem);

    let mut state = WorldState::new(&pack);
    state.current_room_id = LOUNGE_ID.to_string();
    let mut lines = NarrativeLines::new();

    apply_attack_target(&mut state, &pack, "golem", LOUNGE_ID, &mut lines);

    assert!(state.actor_is_defeated("golem", "stamina"));
    assert_eq!(state.loose_room_items(LOUNGE_ID), vec![("herb-salve".to_string(), 2)]);
    let transcript = texts_of(&lines).join("\n");
    assert!(transcript.contains("Left behind") && transcript.contains("herb salve"), "got: {transcript}");
}

#[test]
fn drops_with_no_count_leave_nothing_and_tell_nothing() {
    let mut pack = attack_pack(3);
    pack.items.push(item("herb-salve", "herb salve"));
    pack.messages.insert_str("combat.defeat_drop", PackMessage::Narration("Left behind: {items}.".to_string()));
    pack.actors[0].drops.insert_str("herb-salve", 0);
    let mut state = WorldState::new(&pack);
    let mut lines = NarrativeLines::new();

    apply_attack_target(&mut state, &pack, ACTOR_A_ID, LOUNGE_ID, &mut lines);

    assert!(state.loose_room_items(LOUNGE_ID).is_empty());
    assert_eq!(texts_of(&lines), vec!["Alex takes 3 (0 left).".to_string(), "Alex falls.".to_string()]);
}

#[test]
fn a_due_hostile_strike_hurts_the_player_and_schedules_the_next() {
    let mut pack = attack_pack(10);
    pack.messages.insert_str("combat.hostile_strike", PackMessage::Narration("{actor} hits you for {damage} ({remaining} left).".to_string()));
    let mut state = WorldState::new(&pack);
    state.current_room_id = LOUNGE_ID.to_string();
    state.current_time_minutes = 100;
    state.set_stance(ACTOR_A_ID, ActorStance::Hostile);
    let mut lines = NarrativeLines::new();

    handle_hostile_strike(&mut state, &pack, ACTOR_A_ID, &mut lines);

    assert_eq!(state.actor_stat("player", "health"), 7);
    assert_eq!(state.next_hostile_strike_at.get_str(ACTOR_A_ID), Some(&110));
    assert_eq!(texts_of(&lines), vec!["Alex hits you for 3 (7 left).".to_string()]);
    assert_eq!(state.phase, GamePhase::Active);
}

#[test]
fn a_strike_that_is_not_yet_due_does_nothing() {
    let pack = attack_pack(10);
    let mut state = WorldState::new(&pack);
    state.current_room_id = LOUNGE_ID.to_string();
    state.current_time_minutes = 100;
    state.set_stance(ACTOR_A_ID, ActorStance::Hostile);
    state.next_hostile_strike_at.insert_str(ACTOR_A_ID, 200);
    let mut lines = NarrativeLines::new();

    handle_hostile_strike(&mut state, &pack, ACTOR_A_ID, &mut lines);

    assert_eq!(state.actor_stat("player", "health"), 10);
    assert!(lines.0.is_empty());
}

#[test]
fn a_lethal_strike_ends_the_game_with_the_defeat_text() {
    let mut pack = attack_pack(3);
    pack.settings.combat.player_defeat_text = "You fall.".to_string();
    let mut state = WorldState::new(&pack);
    state.current_room_id = LOUNGE_ID.to_string();
    state.set_stance(ACTOR_A_ID, ActorStance::Hostile);
    let mut lines = NarrativeLines::new();

    handle_hostile_strike(&mut state, &pack, ACTOR_A_ID, &mut lines);

    assert_eq!(state.phase, GamePhase::GameEnded);
    assert_eq!(texts_of(&lines), vec!["You fall.".to_string()]);
}

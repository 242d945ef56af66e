use perlica::logic::level_script::{
    build_trigger_set, short_type_name_of, ActionGetter, ActionHeader, LevelScriptDef, LevelScriptManager,
    LevelScriptState, ParamValue, TriggerKind,
};
use perlica::logic::str_map::StrMap;

fn header(kind: &str, id: i64) -> ActionHeader {
    ActionHeader {
        kind_name: Some(kind.to_string()),
        id: Some(id),
        event_key: None,
        quest_id: None,
        mission_id: None,
        new_state: None,
        validate_ref: None,
    }
}

fn bool_param(b: bool) -> ParamValue {
    ParamValue {
        value_type: 1,
        real_type: 1,
        value_bool_list: vec![b],
        value_int_list: Vec::new(),
        value_float_bits: Vec::new(),
        value_string_list: Vec::new(),
    }
}

fn def(script_id: u64, headers: Vec<ActionHeader>, getters: Vec<ActionGetter>, has_shapes: bool) -> LevelScriptDef {
    LevelScriptDef { script_id, has_shapes, allow_tick: false, properties: StrMap::new(), headers, getters }
}

fn def_with_over(script_id: u64, headers: Vec<ActionHeader>, getters: Vec<ActionGetter>, over: bool) -> LevelScriptDef {
    let mut properties = StrMap::new();
    properties.insert("isOver".to_string(), bool_param(over));
    LevelScriptDef { script_id, has_shapes: false, allow_tick: false, properties, headers, getters }
}

fn state_of(m: &LevelScriptManager, scene: &str, id: i32) -> Option<i32> {
    m.state_notify(scene, id).map(|n| n.state)
}

#[test]
fn short_type_name_drops_namespace_and_assembly() {
    let s: Vec<char> = "Beyond.Gameplay.Actions.OnCustomEvent, Beyond.Gameplay".chars().collect();
    let r: String = short_type_name_of(&s).into_iter().collect();
    assert_eq!(r, "OnCustomEvent");
    let plain: Vec<char> = "OnScriptStart".chars().collect();
    let r2: String = short_type_name_of(&plain).into_iter().collect();
    assert_eq!(r2, "OnScriptStart");
}

#[test]
fn trigger_set_reads_headers_in_order() {
    let mut custom = header("A.B.OnCustomEvent, Asm", 3);
    custom.event_key = Some("door_open".to_string());
    let mut nameless = header("OnCustomEvent", 4);
    nameless.event_key = Some(String::new());
    let mut quest = header("X.OnQuestStateChanged", 5);
    quest.quest_id = Some("q1".to_string());
    quest.new_state = Some(2);
    let d = def(
        1,
        vec![header("X.OnScriptStart", 0), custom, nameless, header("Unknown", 1), quest, header("OnServerDialogExit", 6)],
        Vec::new(),
        false,
    );
    let ts = build_trigger_set(&d);
    assert_eq!(
        ts.triggers,
        vec![
            TriggerKind::ScriptStart,
            TriggerKind::CustomEvent("door_open".to_string()),
            TriggerKind::QuestStateChanged { quest_id: Some("q1".to_string()), new_state: Some(2) },
            TriggerKind::ServerDialogExit,
        ]
    );
}

#[test]
fn sync_scene_gives_listed_scripts_their_initial_state() {
    let mut m = LevelScriptManager::new();
    let defs = vec![def(5, Vec::new(), Vec::new(), false), def(7, Vec::new(), Vec::new(), false)];
    m.sync_scene("map01_dg003", &defs);
    assert_eq!(state_of(&m, "map01_dg003", 5), Some(LevelScriptState::Active.as_i32()));
    assert_eq!(state_of(&m, "map01_dg003", 7), Some(2));
    let packed = m.packed_level_scripts("map01_dg003", &defs);
    assert_eq!(packed.len(), 2);
    assert_eq!((packed[0].script_id, packed[0].state), (5, 3));
    assert_eq!((packed[1].script_id, packed[1].state), (7, 2));
}

#[test]
fn packed_scripts_of_an_unsynced_scene_are_fresh() {
    let m = LevelScriptManager::new();
    let defs = vec![def_with_over(9, Vec::new(), Vec::new(), true)];
    let packed = m.packed_level_scripts("map02", &defs);
    assert_eq!(packed.len(), 1);
    assert_eq!(packed[0].state, 2);
    assert_eq!(packed[0].properties.get("isOver").map(|p| p.value_bool_list.clone()), Some(vec![true]));
    assert!(m.state_notify("map02", 9).is_none());
}

#[test]
fn progression_flag_is_consumed_once() {
    let mut m = LevelScriptManager::new();
    assert!(m.try_consume_progression_flag("s", 1, "isWalkLimitFinish"));
    assert!(!m.try_consume_progression_flag("s", 1, "isWalkLimitFinish"));
    assert!(m.try_consume_progression_flag("s", 1, "is_G_Ob_Over"));
    assert!(m.try_consume_progression_flag("s", 2, "isWalkLimitFinish"));
    assert_eq!(state_of(&m, "s", 1), Some(2));
}

#[test]
fn server_event_is_consumed_once() {
    let mut m = LevelScriptManager::new();
    assert!(m.try_consume_server_event("s", 1, "open"));
    assert!(!m.try_consume_server_event("s", 1, "open"));
    assert!(m.try_consume_server_event("s", 2, "open"));
    // flags and events are kept apart
    assert!(m.try_consume_progression_flag("s", 1, "open"));
}

#[test]
fn client_activation_reports_only_changes() {
    let mut m = LevelScriptManager::new();
    let defs = vec![def(10, Vec::new(), Vec::new(), true)];
    assert_eq!(m.set_client_active("lv", 10, true, &defs), Some(LevelScriptState::Active));
    assert_eq!(m.set_client_active("lv", 10, true, &defs), None);
    assert_eq!(m.set_client_active("lv", 10, false, &defs), Some(LevelScriptState::Enabled));
    assert_eq!(m.commit_cache_step("lv", 10, &defs), None);
    m.set_client_active("lv", 10, true, &defs);
    assert_eq!(m.commit_cache_step("lv", 10, &defs), Some(LevelScriptState::Enabled));
}

#[test]
fn custom_event_activates_matching_scripts_sorted() {
    let mut m = LevelScriptManager::new();
    let mut ev = header("OnCustomEvent", 2);
    ev.event_key = Some("boss_dead".to_string());
    let defs = vec![
        def(30, vec![ev.clone()], Vec::new(), true),
        def(4, vec![ev.clone()], Vec::new(), true),
        def(12, vec![header("OnServerDialogExit", 1)], Vec::new(), true),
        def(4, vec![ev], Vec::new(), true),
    ];
    assert_eq!(m.on_custom_event("lv", "boss_dead", &defs), vec![4, 30]);
    assert_eq!(state_of(&m, "lv", 4), Some(3));
    assert_eq!(state_of(&m, "lv", 12), Some(2));
    assert_eq!(m.on_custom_event("lv", "other", &defs), Vec::<i32>::new());
    assert_eq!(m.on_dialog_finished("lv", &defs), vec![12]);
    assert_eq!(m.on_guide_group_completed("lv", &defs), Vec::<i32>::new());
}

#[test]
fn quest_state_trigger_needs_quest_and_state() {
    let mut m = LevelScriptManager::new();
    let mut q = header("OnQuestStateChanged", 1);
    q.quest_id = Some("e0m0_q#1".to_string());
    q.new_state = Some(3);
    let mut mi = header("OnMissionStateChanged", 1);
    mi.mission_id = Some("e0m0".to_string());
    mi.new_state = Some(2);
    let defs = vec![def(1, vec![q], Vec::new(), true), def(2, vec![mi], Vec::new(), true)];
    assert_eq!(m.on_quest_state_changed("lv", "e0m0_q#1", 2, &defs), Vec::<i32>::new());
    assert_eq!(m.on_quest_state_changed("lv", "e0m0_q#1", 3, &defs), vec![1]);
    assert_eq!(m.on_mission_state_changed("lv", "e0m0", 2, &defs), vec![2]);
}

fn start_with_not_over() -> (Vec<ActionHeader>, Vec<ActionGetter>) {
    let mut start = header("Beyond.OnScriptStart, Asm", 0);
    start.validate_ref = Some(8);
    let getters = vec![
        ActionGetter {
            id: Some(7),
            kind_name: Some("Beyond.BoolGetter".to_string()),
            value_path: Some("self_bb.isOver".to_string()),
            value_ref: None,
        },
        ActionGetter { id: Some(8), kind_name: Some("BoolGetterInvert".to_string()), value_path: None, value_ref: None },
    ];
    (vec![start], getters)
}

#[test]
fn proximate_script_starts_unless_over() {
    let (h, g) = start_with_not_over();
    let defs = vec![def_with_over(20, h.clone(), g.clone(), false), def_with_over(21, h, g, true)];
    assert!(defs.iter().all(|d| d.start_condition_ends()));
    let mut m = LevelScriptManager::new();
    assert_eq!(m.activate_eligible_proximate_scripts("lv", &[true, true], &defs), vec![20]);
    assert_eq!(state_of(&m, "lv", 20), Some(3));
    assert_eq!(state_of(&m, "lv", 21), Some(2));
    // already active: nothing more to start
    assert_eq!(m.activate_eligible_proximate_scripts("lv", &[true, true], &defs), Vec::<i32>::new());
}

#[test]
fn proximate_script_needs_player_in_zone_and_root_start() {
    let (h, g) = start_with_not_over();
    let defs = vec![
        def_with_over(20, h, g, false),
        def_with_over(22, vec![header("OnScriptStart", 3)], Vec::new(), false),
    ];
    let mut m = LevelScriptManager::new();
    assert_eq!(m.activate_eligible_proximate_scripts("lv", &[false, true], &defs), Vec::<i32>::new());
    assert_eq!(m.activate_eligible_proximate_scripts("lv", &[true, true], &defs), vec![20]);
}

#[test]
fn server_triggered_scripts_are_shapeless_active_roots() {
    let root_active = vec![header("X.OnScriptActive", 0)];
    let defs = vec![
        def_with_over(1, root_active.clone(), Vec::new(), false),
        def_with_over(2, root_active.clone(), Vec::new(), true),
        def(3, root_active, Vec::new(), true),
        def(4, vec![header("OnScriptActive", 5)], Vec::new(), false),
    ];
    let mut m = LevelScriptManager::new();
    assert_eq!(m.activate_server_triggered_scripts("lv", &defs), vec![1]);
    assert_eq!(m.activate_server_triggered_scripts("lv", &defs), Vec::<i32>::new());
}

#[test]
fn client_properties_merge_over_stored_ones() {
    let defs = vec![def_with_over(1, Vec::new(), Vec::new(), false)];
    let mut m = LevelScriptManager::new();
    let mut update = StrMap::new();
    update.insert("isOver".to_string(), bool_param(true));
    update.insert("count".to_string(), bool_param(false));
    m.update_properties("lv", 1, &update, &defs);
    let packed = m.packed_level_scripts("lv", &defs);
    assert_eq!(packed[0].properties.len(), 2);
    assert_eq!(packed[0].properties.get("isOver").map(|p| p.value_bool_list.clone()), Some(vec![true]));
    // an over script is not started by the server
    let root = vec![def_with_over(1, vec![header("OnScriptActive", 0)], Vec::new(), false)];
    assert_eq!(m.activate_server_triggered_scripts("lv", &root), Vec::<i32>::new());
}

#[test]
fn reset_scene_forgets_runtime_state() {
    let defs = vec![def(10, Vec::new(), Vec::new(), true)];
    let mut m = LevelScriptManager::new();
    m.set_client_active("lv", 10, true, &defs);
    m.try_consume_server_event("lv", 10, "e");
    m.reset_scene("lv", &defs);
    assert_eq!(state_of(&m, "lv", 10), Some(2));
    assert!(m.try_consume_server_event("lv", 10, "e"));
}

#[test]
fn circular_getter_chain_is_detected() {
    let mut start = header("OnScriptStart", 0);
    start.validate_ref = Some(1);
    let cyclic = def(
        1,
        vec![start],
        vec![ActionGetter { id: Some(1), kind_name: Some("BoolGetterInvert".to_string()), value_path: None, value_ref: Some(1) }],
        false,
    );
    assert!(!cyclic.start_condition_ends());
    let (h, g) = start_with_not_over();
    assert!(def(2, h, g, false).start_condition_ends());
}

#[test]
fn initial_state_follows_headers_then_shapes() {
    let d = def(1, vec![header("X.OnScriptStart", 0)], Vec::new(), false);
    assert_eq!(build_trigger_set(&d).initial_state, LevelScriptState::Active);
    let d = def(2, vec![header("X.OnScriptStart", 3)], Vec::new(), false);
    assert_eq!(build_trigger_set(&d).initial_state, LevelScriptState::Enabled);
    let d = def(3, vec![header("X.OnScriptStart", 0), header("Y.OnScriptActive", 1)], Vec::new(), false);
    assert_eq!(build_trigger_set(&d).initial_state, LevelScriptState::Enabled);
    let d = def(4, vec![header("X.OnScriptStart", 0)], Vec::new(), true);
    assert_eq!(build_trigger_set(&d).initial_state, LevelScriptState::Enabled);
    let mut d = def(5, Vec::new(), Vec::new(), false);
    d.allow_tick = true;
    assert_eq!(build_trigger_set(&d).initial_state, LevelScriptState::Active);
}

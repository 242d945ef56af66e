use perlica::config::mission::{MissionAssets, MissionDefinition, MissionKind, QuestDefinition};
use perlica::logic::mission::{
    empty_objective, MissionManager, MissionState, MissionUpdate, ObjectiveValueOp, QuestObjective, QuestState,
    PROLOGUE_MISSION_ID,
};
use perlica::logic::str_map::StrMap;

fn make_quest_def(quest_id: &str, objective_keys: &[&str]) -> QuestDefinition {
    QuestDefinition {
        quest_id: quest_id.to_string(),
        ordinal_key: quest_id.split("_q#").last().unwrap_or("1").to_string(),
        numeric_ordinal: quest_id.split("_q#").last().and_then(|s| s.parse().ok()),
        objective_keys: objective_keys.iter().map(|s| s.to_string()).collect(),
    }
}

fn make_mission_def(mission_id: &str, quests: Vec<QuestDefinition>) -> MissionDefinition {
    MissionDefinition {
        mission_id: mission_id.to_string(),
        kind: MissionKind::from_mission_id(mission_id),
        name_key: format!("{mission_id}_name"),
        description_key: Some(format!("{mission_id}_description")),
        quests,
    }
}

fn make_mission_assets(missions: Vec<MissionDefinition>) -> MissionAssets {
    MissionAssets::from_missions(missions)
}

fn make_objective(condition_id: &str, value: i32, is_complete: bool) -> QuestObjective {
    let mut values = StrMap::new();
    values.insert(condition_id.to_string(), value);
    QuestObjective { condition_id: condition_id.to_string(), is_complete, values }
}

fn op(condition_id: &str, value: i32, is_add: bool) -> Vec<ObjectiveValueOp> {
    vec![ObjectiveValueOp { condition_id: condition_id.to_string(), value, is_add }]
}

fn counter(o: &QuestObjective, key: &str) -> i32 {
    *o.values.get(key).unwrap()
}

#[test]
fn mission_manager_default_is_empty() {
    let mgr = MissionManager::default();
    assert!(mgr.track_mission_id().is_empty());
    assert!(!mgr.has_mission("any"));
    assert!(mgr.snapshot_missions().is_empty());
    assert!(mgr.snapshot_quests().is_empty());
}

#[test]
fn mission_manager_insert_loaded_mission_and_has_mission() {
    let mut mgr = MissionManager::default();
    assert!(!mgr.has_mission("mission_mai_e0m1"));
    mgr.insert_loaded_mission("mission_mai_e0m1".to_string(), MissionState::Msprocessing, 0);
    assert!(mgr.has_mission("mission_mai_e0m1"));
    assert!(!mgr.has_mission("mission_mai_e0m2"));
}

#[test]
fn mission_manager_snapshot_missions() {
    let mut mgr = MissionManager::default();
    mgr.insert_loaded_mission("m1".to_string(), MissionState::Msprocessing, 0);
    mgr.insert_loaded_mission("m2".to_string(), MissionState::Mscompleted, 1);
    let snapshot = mgr.snapshot_missions();
    assert_eq!(snapshot.len(), 2);
    let ids: Vec<&str> = snapshot.iter().map(|(id, _, _)| id.as_str()).collect();
    assert!(ids.contains(&"m1"));
    assert!(ids.contains(&"m2"));
}

#[test]
fn mission_manager_snapshot_missions_states() {
    let mut mgr = MissionManager::default();
    mgr.insert_loaded_mission("m1".to_string(), MissionState::Msprocessing, 0);
    mgr.insert_loaded_mission("m2".to_string(), MissionState::Mscompleted, 5);
    let snapshot = mgr.snapshot_missions();
    let m1 = snapshot.iter().find(|(id, _, _)| id == "m1").unwrap();
    assert_eq!(m1.1, MissionState::Msprocessing);
    assert_eq!(m1.2, 0);
    let m2 = snapshot.iter().find(|(id, _, _)| id == "m2").unwrap();
    assert_eq!(m2.1, MissionState::Mscompleted);
    assert_eq!(m2.2, 5);
}

#[test]
fn mission_manager_insert_loaded_quest_and_snapshot() {
    let mut mgr = MissionManager::default();
    let obj = make_objective("obj_1", 0, false);
    mgr.insert_loaded_quest("mission_mai_e0m1_q#1".to_string(), QuestState::Qsprocessing, vec![obj]);
    let snapshot = mgr.snapshot_quests();
    assert_eq!(snapshot.len(), 1);
    assert_eq!(snapshot[0].0, "mission_mai_e0m1_q#1");
    assert_eq!(snapshot[0].1, QuestState::Qsprocessing);
    assert_eq!(snapshot[0].2.len(), 1);
}

#[test]
fn mission_manager_insert_loaded_quest_multiple_objectives() {
    let mut mgr = MissionManager::default();
    let obj1 = make_objective("obj_1", 1, true);
    let obj2 = make_objective("obj_2", 0, false);
    mgr.insert_loaded_quest("quest_a".to_string(), QuestState::Qsprocessing, vec![obj1, obj2]);
    let snapshot = mgr.snapshot_quests();
    assert_eq!(snapshot[0].2.len(), 2);
}

#[test]
fn mission_manager_update_track_mission() {
    let mut mgr = MissionManager::default();
    assert!(mgr.track_mission_id().is_empty());
    mgr.update_track_mission("mission_mai_e0m1");
    assert_eq!(mgr.track_mission_id(), "mission_mai_e0m1");
    mgr.update_track_mission("mission_mai_e0m2");
    assert_eq!(mgr.track_mission_id(), "mission_mai_e0m2");
}

#[test]
fn mission_manager_stop_tracking() {
    let mut mgr = MissionManager::default();
    mgr.update_track_mission("mission_mai_e0m1");
    assert_eq!(mgr.track_mission_id(), "mission_mai_e0m1");
    mgr.stop_tracking();
    assert!(mgr.track_mission_id().is_empty());
}

#[test]
fn mission_manager_insert_loaded_mission_replaces() {
    let mut mgr = MissionManager::default();
    mgr.insert_loaded_mission("m1".to_string(), MissionState::Msprocessing, 0);
    mgr.insert_loaded_mission("m1".to_string(), MissionState::Mscompleted, 1);
    assert!(mgr.has_mission("m1"));
    let snapshot = mgr.snapshot_missions();
    assert_eq!(snapshot.len(), 1);
    assert_eq!(snapshot[0].1, MissionState::Mscompleted);
    assert_eq!(snapshot[0].2, 1);
}

#[test]
fn ensure_bootstrap_no_op_when_missions_exist() {
    let mut mgr = MissionManager::default();
    mgr.insert_loaded_mission("existing".to_string(), MissionState::Msprocessing, 0);
    let assets = make_mission_assets(vec![]);
    mgr.ensure_bootstrap(&assets);
    assert!(mgr.has_mission("existing"));
    assert!(!mgr.has_mission(PROLOGUE_MISSION_ID));
}

#[test]
fn ensure_bootstrap_empty_assets_no_change() {
    let mut mgr = MissionManager::default();
    let assets = MissionAssets::default();
    mgr.ensure_bootstrap(&assets);
    assert!(mgr.snapshot_missions().is_empty());
    assert!(mgr.track_mission_id().is_empty());
}

#[test]
fn ensure_bootstrap_prologue_mission() {
    let mut mgr = MissionManager::default();
    let quest = make_quest_def("mission_mai_e0m1_q#2", &["obj_timeline_over"]);
    let mission = make_mission_def(PROLOGUE_MISSION_ID, vec![quest]);
    let assets = make_mission_assets(vec![mission]);
    mgr.ensure_bootstrap(&assets);
    assert!(mgr.has_mission(PROLOGUE_MISSION_ID));
    assert_eq!(mgr.track_mission_id(), PROLOGUE_MISSION_ID);
    let quests = mgr.snapshot_quests();
    assert!(!quests.is_empty());
}

#[test]
fn ensure_bootstrap_prologue_uses_first_quest() {
    let mut mgr = MissionManager::default();
    let quest1 = make_quest_def("mission_mai_e0m1_q#1", &["obj_first"]);
    let quest2 = make_quest_def("mission_mai_e0m1_q#2", &["obj_second"]);
    let mission = make_mission_def(PROLOGUE_MISSION_ID, vec![quest1, quest2]);
    let assets = make_mission_assets(vec![mission]);
    mgr.ensure_bootstrap(&assets);
    let quests = mgr.snapshot_quests();
    assert!(!quests.is_empty());
    assert_eq!(quests[0].0, "mission_mai_e0m1_q#1");
}

#[test]
fn ensure_bootstrap_falls_back_to_first_available_mission() {
    let mut mgr = MissionManager::default();
    let quest = make_quest_def("mission_sid_e1m1_q#1", &["obj_a"]);
    let mission = make_mission_def("mission_sid_e1m1", vec![quest]);
    let assets = make_mission_assets(vec![mission]);
    mgr.ensure_bootstrap(&assets);
    assert!(mgr.has_mission("mission_sid_e1m1"));
    assert_eq!(mgr.track_mission_id(), "mission_sid_e1m1");
}

#[test]
fn ensure_bootstrap_quest_with_empty_objective_keys_is_skipped() {
    let mut mgr = MissionManager::default();
    let empty_quest = make_quest_def("mission_mai_e0m1_q#1", &[]);
    let valid_quest = make_quest_def("mission_mai_e0m1_q#2", &["obj_good"]);
    let mission = make_mission_def(PROLOGUE_MISSION_ID, vec![empty_quest, valid_quest]);
    let assets = make_mission_assets(vec![mission]);
    mgr.ensure_bootstrap(&assets);
    assert!(mgr.has_mission(PROLOGUE_MISSION_ID));
    let quests = mgr.snapshot_quests();
    assert!(!quests.is_empty());
    assert_eq!(quests[0].0, "mission_mai_e0m1_q#2");
}

#[test]
fn apply_objective_ops_unknown_quest_returns_empty() {
    let mut mgr = MissionManager::default();
    let assets = MissionAssets::default();
    let update = mgr.apply_objective_ops("nonexistent_quest", &op("obj_1", 1, true), &assets);
    assert!(update.reply_objective_update.is_none());
    assert!(update.state_updates.is_empty());
    assert!(update.mission_updates.is_empty());
}

#[test]
fn apply_objective_ops_add_value() {
    let mut mgr = MissionManager::default();
    mgr.insert_loaded_quest("quest_a".to_string(), QuestState::Qsprocessing, vec![make_objective("obj_1", 0, false)]);
    let assets = MissionAssets::default();
    let update = mgr.apply_objective_ops("quest_a", &op("obj_1", 5, true), &assets);
    assert!(update.reply_objective_update.is_some());
    let reply = update.reply_objective_update.unwrap();
    assert_eq!(reply.quest_id, "quest_a");
    assert_eq!(reply.quest_objectives.len(), 1);
    assert_eq!(counter(&reply.quest_objectives[0], "obj_1"), 5);
    assert!(reply.quest_objectives[0].is_complete);
}

#[test]
fn apply_objective_ops_set_value() {
    let mut mgr = MissionManager::default();
    mgr.insert_loaded_quest("quest_a".to_string(), QuestState::Qsprocessing, vec![make_objective("obj_1", 3, true)]);
    let assets = MissionAssets::default();
    let update = mgr.apply_objective_ops("quest_a", &op("obj_1", 10, false), &assets);
    let reply = update.reply_objective_update.unwrap();
    assert_eq!(counter(&reply.quest_objectives[0], "obj_1"), 10);
}

#[test]
fn apply_objective_ops_add_accumulates() {
    let mut mgr = MissionManager::default();
    mgr.insert_loaded_quest("quest_a".to_string(), QuestState::Qsprocessing, vec![make_objective("obj_1", 0, false)]);
    let assets = MissionAssets::default();
    mgr.apply_objective_ops("quest_a", &op("obj_1", 3, true), &assets);
    let update = mgr.apply_objective_ops("quest_a", &op("obj_1", 4, true), &assets);
    let reply = update.reply_objective_update.unwrap();
    assert_eq!(counter(&reply.quest_objectives[0], "obj_1"), 7);
}

#[test]
fn apply_objective_ops_new_condition_id_creates_objective() {
    let mut mgr = MissionManager::default();
    mgr.insert_loaded_quest("quest_a".to_string(), QuestState::Qsprocessing, vec![make_objective("obj_1", 0, false)]);
    let assets = MissionAssets::default();
    let update = mgr.apply_objective_ops("quest_a", &op("obj_new", 1, true), &assets);
    let reply = update.reply_objective_update.unwrap();
    assert_eq!(reply.quest_objectives.len(), 2);
}

#[test]
fn apply_objective_ops_completes_quest_when_all_done() {
    let mut mgr = MissionManager::default();
    mgr.insert_loaded_quest("quest_a".to_string(), QuestState::Qsprocessing, vec![make_objective("obj_1", 0, false)]);
    let mission = make_mission_def("mission_mai_e0m1", vec![make_quest_def("quest_a", &["obj_1"])]);
    mgr.insert_loaded_mission("mission_mai_e0m1".to_string(), MissionState::Msprocessing, 0);
    let assets = make_mission_assets(vec![mission]);
    let update = mgr.apply_objective_ops("quest_a", &op("obj_1", 1, true), &assets);
    assert!(!update.state_updates.is_empty());
    assert_eq!(update.state_updates[0].quest_state, QuestState::Qscompleted);
}

#[test]
fn apply_objective_ops_partial_completion_no_state_update() {
    let mut mgr = MissionManager::default();
    mgr.insert_loaded_quest(
        "quest_a".to_string(),
        QuestState::Qsprocessing,
        vec![make_objective("obj_1", 0, false), make_objective("obj_2", 0, false)],
    );
    let assets = MissionAssets::default();
    let update = mgr.apply_objective_ops("quest_a", &op("obj_1", 1, true), &assets);
    assert!(update.state_updates.is_empty());
}

#[test]
fn apply_objective_ops_set_zero_marks_incomplete() {
    let mut mgr = MissionManager::default();
    mgr.insert_loaded_quest("quest_a".to_string(), QuestState::Qsprocessing, vec![make_objective("obj_1", 1, true)]);
    let assets = MissionAssets::default();
    let update = mgr.apply_objective_ops("quest_a", &op("obj_1", 0, false), &assets);
    let reply = update.reply_objective_update.unwrap();
    assert_eq!(counter(&reply.quest_objectives[0], "obj_1"), 0);
    assert!(!reply.quest_objectives[0].is_complete);
    assert!(update.state_updates.is_empty());
}

#[test]
fn advance_to_next_quest_advances_quest() {
    let mut mgr = MissionManager::default();
    mgr.insert_loaded_quest("mission_mai_e0m1_q#1".to_string(), QuestState::Qsprocessing, vec![make_objective("obj_1", 0, false)]);
    mgr.insert_loaded_mission("mission_mai_e0m1".to_string(), MissionState::Msprocessing, 0);
    let mission = make_mission_def(
        "mission_mai_e0m1",
        vec![make_quest_def("mission_mai_e0m1_q#1", &["obj_1"]), make_quest_def("mission_mai_e0m1_q#2", &["obj_2"])],
    );
    let assets = make_mission_assets(vec![mission]);
    let result = mgr.advance_to_next_quest("mission_mai_e0m1_q#1", &assets);
    assert!(result.is_some());
    let (mission_id, next_quest_id) = result.unwrap();
    assert_eq!(mission_id, "mission_mai_e0m1");
    assert_eq!(next_quest_id, "mission_mai_e0m1_q#2");
    let quests = mgr.snapshot_quests();
    assert_eq!(quests.len(), 1);
    assert_eq!(quests[0].0, "mission_mai_e0m1_q#2");
}

#[test]
fn advance_to_next_quest_completes_mission_when_no_more_quests() {
    let mut mgr = MissionManager::default();
    mgr.insert_loaded_quest("mission_mai_e0m1_q#1".to_string(), QuestState::Qscompleted, vec![make_objective("obj_1", 1, true)]);
    mgr.insert_loaded_mission("mission_mai_e0m1".to_string(), MissionState::Msprocessing, 0);
    let mission = make_mission_def("mission_mai_e0m1", vec![make_quest_def("mission_mai_e0m1_q#1", &["obj_1"])]);
    let assets = make_mission_assets(vec![mission]);
    let result = mgr.advance_to_next_quest("mission_mai_e0m1_q#1", &assets);
    assert!(result.is_some());
    let (mission_id, next_quest_id) = result.unwrap();
    assert_eq!(mission_id, "mission_mai_e0m1");
    assert!(next_quest_id.is_empty());
    let snapshot = mgr.snapshot_missions();
    let m = snapshot.iter().find(|(id, _, _)| id == "mission_mai_e0m1").unwrap();
    assert_eq!(m.1, MissionState::Mscompleted);
}

#[test]
fn advance_to_next_quest_unknown_quest_returns_none() {
    let mut mgr = MissionManager::default();
    let assets = MissionAssets::default();
    let result = mgr.advance_to_next_quest("nonexistent_q#1", &assets);
    assert!(result.is_none());
}

#[test]
fn advance_tracked_quest_step_no_active_quest() {
    let mut mgr = MissionManager::default();
    let assets = MissionAssets::default();
    let update = mgr.advance_tracked_quest_step(&assets);
    assert!(update.reply_objective_update.is_none());
    assert!(update.state_updates.is_empty());
}

#[test]
fn advance_tracked_quest_step_completes_objective() {
    let mut mgr = MissionManager::default();
    mgr.insert_loaded_quest("mission_mai_e0m1_q#1".to_string(), QuestState::Qsprocessing, vec![make_objective("obj_1", 0, false)]);
    mgr.insert_loaded_mission("mission_mai_e0m1".to_string(), MissionState::Msprocessing, 0);
    mgr.update_track_mission("mission_mai_e0m1");
    let mission = make_mission_def("mission_mai_e0m1", vec![make_quest_def("mission_mai_e0m1_q#1", &["obj_1"])]);
    let assets = make_mission_assets(vec![mission]);
    let update = mgr.advance_tracked_quest_step(&assets);
    assert!(update.reply_objective_update.is_some());
    let reply = update.reply_objective_update.unwrap();
    assert_eq!(counter(&reply.quest_objectives[0], "obj_1"), 1);
    assert!(reply.quest_objectives[0].is_complete);
}

#[test]
fn advance_tracked_quest_step_skips_completed_quest() {
    let mut mgr = MissionManager::default();
    mgr.insert_loaded_quest("mission_mai_e0m1_q#1".to_string(), QuestState::Qscompleted, vec![make_objective("obj_1", 1, true)]);
    mgr.update_track_mission("mission_mai_e0m1");
    let assets = MissionAssets::default();
    let update = mgr.advance_tracked_quest_step(&assets);
    assert!(update.reply_objective_update.is_none());
}

#[test]
fn apply_objective_ops_advances_to_next_quest() {
    let mut mgr = MissionManager::default();
    mgr.insert_loaded_quest("mission_mai_e0m1_q#1".to_string(), QuestState::Qsprocessing, vec![make_objective("obj_1", 0, false)]);
    mgr.insert_loaded_mission("mission_mai_e0m1".to_string(), MissionState::Msprocessing, 0);
    let mission = make_mission_def(
        "mission_mai_e0m1",
        vec![make_quest_def("mission_mai_e0m1_q#1", &["obj_1"]), make_quest_def("mission_mai_e0m1_q#2", &["obj_2"])],
    );
    let assets = make_mission_assets(vec![mission]);
    let update = mgr.apply_objective_ops("mission_mai_e0m1_q#1", &op("obj_1", 1, true), &assets);
    assert!(!update.state_updates.is_empty());
    assert!(update.state_updates.iter().any(|su| su.quest_id == "mission_mai_e0m1_q#2"));
    assert!(!update.mission_updates.is_empty());
}

#[test]
fn apply_objective_ops_completes_mission_when_last_quest_done() {
    let mut mgr = MissionManager::default();
    mgr.insert_loaded_quest("mission_mai_e0m1_q#1".to_string(), QuestState::Qsprocessing, vec![make_objective("obj_1", 0, false)]);
    mgr.insert_loaded_mission("mission_mai_e0m1".to_string(), MissionState::Msprocessing, 0);
    let mission = make_mission_def("mission_mai_e0m1", vec![make_quest_def("mission_mai_e0m1_q#1", &["obj_1"])]);
    let assets = make_mission_assets(vec![mission]);
    let update = mgr.apply_objective_ops("mission_mai_e0m1_q#1", &op("obj_1", 1, true), &assets);
    assert!(!update.mission_updates.is_empty());
    assert_eq!(update.mission_updates[0].mission_state, MissionState::Mscompleted);
}

#[test]
fn empty_objective_structure() {
    let obj = empty_objective("test_cond");
    assert_eq!(obj.condition_id, "test_cond");
    assert!(!obj.is_complete);
    assert_eq!(counter(&obj, "test_cond"), 0);
}

#[test]
fn mission_update_default() {
    let update = MissionUpdate::default();
    assert!(update.reply_objective_update.is_none());
    assert!(update.notify_objective_updates.is_empty());
    assert!(update.state_updates.is_empty());
    assert!(update.mission_updates.is_empty());
}

#[test]
fn adding_saturates_at_i32_max() {
    let mut mgr = MissionManager::default();
    mgr.insert_loaded_quest("q".to_string(), QuestState::Qsprocessing, vec![make_objective("o", i32::MAX - 1, true)]);
    let assets = MissionAssets::default();
    let update = mgr.apply_objective_ops("q", &op("o", 5, true), &assets);
    let reply = update.reply_objective_update.unwrap();
    assert_eq!(counter(&reply.quest_objectives[0], "o"), i32::MAX);
}

#[test]
fn blank_objective_keys_do_not_start_objectives() {
    let mut mgr = MissionManager::default();
    let mission = make_mission_def(
        PROLOGUE_MISSION_ID,
        vec![make_quest_def("mission_mai_e0m1_q#1", &["  ", "\t"]), make_quest_def("mission_mai_e0m1_q#2", &[" ", "obj"])],
    );
    let assets = make_mission_assets(vec![mission]);
    mgr.ensure_bootstrap(&assets);
    let quests = mgr.snapshot_quests();
    assert_eq!(quests.len(), 1);
    assert_eq!(quests[0].0, "mission_mai_e0m1_q#2");
    assert_eq!(quests[0].2.len(), 1);
    assert_eq!(quests[0].2[0].condition_id, "obj");
}

#[test]
fn mission_manager_sync_packet_empty() {
    let mgr = MissionManager::default();
    let pkt = mgr.sync_packet();
    assert!(pkt.track_mission_id.is_empty());
    assert!(pkt.missions.is_empty());
    assert!(pkt.cur_quests.is_empty());
}

#[test]
fn mission_manager_sync_packet_with_data() {
    let mut mgr = MissionManager::default();
    mgr.update_track_mission("mission_mai_e0m1");
    mgr.insert_loaded_mission("mission_mai_e0m1".to_string(), MissionState::Msprocessing, 0);
    let obj = make_objective("obj_1", 0, false);
    mgr.insert_loaded_quest("mission_mai_e0m1_q#1".to_string(), QuestState::Qsprocessing, vec![obj]);
    let pkt = mgr.sync_packet();
    assert_eq!(pkt.track_mission_id, "mission_mai_e0m1");
    assert_eq!(pkt.missions.len(), 1);
    assert!(pkt.missions.contains_key("mission_mai_e0m1"));
    assert_eq!(pkt.missions.get("mission_mai_e0m1").unwrap().mission_state, MissionState::Msprocessing);
    assert_eq!(pkt.cur_quests.len(), 1);
    assert!(pkt.cur_quests.contains_key("mission_mai_e0m1_q#1"));
}

use perlica::logic::char_bag::{Char, CharBag, CharIndex, Team, TeamSlot};
use perlica::logic::entity::{EntityKind, EntityManager, SceneEntity};
use perlica::logic::interest::{ReplicationZone, StreamBucket};
use perlica::logic::scene::{
    lv_property_to_dynamic_param, move_leader_to_front, team_change, EntityDestroyReason, InteractiveSpawn,
    LvProperty, ParamEntry, RevivalMode, SceneCache, SceneLoadingState, SceneManager,
};
use perlica::logic::str_map::StrMap;

/// A saved respawn point, as the game stores it.
#[derive(Debug, Clone, Default)]
struct CheckpointInfo {
    scene_name: String,
    pos_x: f32,
    pos_y: f32,
    pos_z: f32,
}

fn now_ms() -> u64 {
    std::time::SystemTime::now()
        .duration_since(std::time::UNIX_EPOCH)
        .map(|d| d.as_millis() as u64)
        .unwrap_or(0)
}

#[test]
fn scene_manager_new_matches_default() {
    let new_mgr = SceneManager::<CheckpointInfo>::new();
    let default_mgr = SceneManager::<CheckpointInfo>::default();
    assert_eq!(new_mgr.current_scene, default_mgr.current_scene);
    assert_eq!(new_mgr.scene_id, default_mgr.scene_id);
    assert_eq!(new_mgr.loading_state, default_mgr.loading_state);
    assert_eq!(new_mgr.in_battle, default_mgr.in_battle);
    assert_eq!(new_mgr.checkpoint.is_none(), default_mgr.checkpoint.is_none());
    assert_eq!(new_mgr.current_revival_mode, default_mgr.current_revival_mode);
}

#[test]
fn scene_manager_default_values() {
    let mgr = SceneManager::<CheckpointInfo>::default();
    assert_eq!(mgr.current_scene, "map01_lv001");
    assert_eq!(mgr.scene_id, 0);
    assert_eq!(mgr.loading_state, SceneLoadingState::Idle);
    assert!(!mgr.in_battle);
    assert!(mgr.checkpoint.is_none());
    assert_eq!(mgr.current_revival_mode, RevivalMode::Default);
    assert!(mgr.dead_entities.is_empty());
}

#[test]
fn set_revival_mode_changes_mode() {
    let mut mgr = SceneManager::<CheckpointInfo>::default();
    assert_eq!(mgr.current_revival_mode, RevivalMode::Default);
    mgr.set_revival_mode(RevivalMode::RepatriatePoint);
    assert_eq!(mgr.current_revival_mode, RevivalMode::RepatriatePoint);
    mgr.set_revival_mode(RevivalMode::CheckPoint);
    assert_eq!(mgr.current_revival_mode, RevivalMode::CheckPoint);
    mgr.set_revival_mode(RevivalMode::Default);
    assert_eq!(mgr.current_revival_mode, RevivalMode::Default);
}

#[test]
fn set_battle_mode_toggles() {
    let mut mgr = SceneManager::<CheckpointInfo>::default();
    assert!(!mgr.in_battle);
    mgr.set_battle_mode(true);
    assert!(mgr.in_battle);
    mgr.set_battle_mode(false);
    assert!(!mgr.in_battle);
}

#[test]
fn is_in_scene_false_when_idle() {
    let mgr = SceneManager::<CheckpointInfo>::default();
    assert!(!mgr.is_in_scene());
}

#[test]
fn is_in_scene_false_when_loading() {
    let mut mgr = SceneManager::<CheckpointInfo>::default();
    mgr.loading_state = SceneLoadingState::Loading;
    assert!(!mgr.is_in_scene());
}

#[test]
fn is_in_scene_true_when_active() {
    let mut mgr = SceneManager::<CheckpointInfo>::default();
    mgr.loading_state = SceneLoadingState::Active;
    assert!(mgr.is_in_scene());
}

#[test]
fn scene_name_returns_current_scene() {
    let mgr = SceneManager::<CheckpointInfo>::default();
    assert_eq!(mgr.scene_name(), "map01_lv001");
}

#[test]
fn destroy_entity_immediately() {
    let mgr = SceneManager::<CheckpointInfo>::default();
    let result = mgr.destroy_entity(42, EntityDestroyReason::Immediately);
    assert_eq!(result.id, 42);
    assert_eq!(result.reason, EntityDestroyReason::Immediately.as_i32());
    assert_eq!(result.scene_name, "map01_lv001");
}

#[test]
fn destroy_entity_dead() {
    let mgr = SceneManager::<CheckpointInfo>::default();
    let result = mgr.destroy_entity(99, EntityDestroyReason::Dead);
    assert_eq!(result.id, 99);
    assert_eq!(result.reason, EntityDestroyReason::Dead.as_i32());
}

#[test]
fn create_entity_contains_id() {
    let mgr = SceneManager::<CheckpointInfo>::default();
    let result = mgr.create_entity(123);
    assert_eq!(result.id, 123);
    assert_eq!(result.scene_name, "map01_lv001");
}

#[test]
fn object_leave_view_maps_ids() {
    let mgr = SceneManager::<CheckpointInfo>::default();
    let result = mgr.object_leave_view(vec![10, 20, 30]);
    assert_eq!(result.scene_name, "map01_lv001");
    assert_eq!(result.obj_list.len(), 3);
    assert_eq!(result.obj_list[0].obj_id, 10);
    assert_eq!(result.obj_list[1].obj_id, 20);
    assert_eq!(result.obj_list[2].obj_id, 30);
    assert_eq!(result.obj_list[0].obj_type, 0);
}

#[test]
fn object_leave_view_empty_ids() {
    let mgr = SceneManager::<CheckpointInfo>::default();
    let result = mgr.object_leave_view(vec![]);
    assert!(result.obj_list.is_empty());
}

#[test]
fn set_and_get_checkpoint() {
    let mut mgr = SceneManager::<CheckpointInfo>::default();
    assert!(mgr.get_checkpoint().is_none());
    let cp = CheckpointInfo { scene_name: "map01_lv002".to_string(), pos_x: 100.0, pos_y: 200.0, pos_z: 300.0 };
    mgr.set_checkpoint(cp);
    let result = mgr.get_checkpoint().unwrap();
    assert_eq!(result.scene_name, "map01_lv002");
    assert_eq!(result.pos_x, 100.0);
    assert_eq!(result.pos_y, 200.0);
    assert_eq!(result.pos_z, 300.0);
}

#[test]
fn checkpoint_overwrite() {
    let mut mgr = SceneManager::<CheckpointInfo>::default();
    mgr.set_checkpoint(CheckpointInfo { scene_name: "first".to_string(), pos_x: 1.0, pos_y: 2.0, pos_z: 3.0 });
    mgr.set_checkpoint(CheckpointInfo { scene_name: "second".to_string(), pos_x: 4.0, pos_y: 5.0, pos_z: 6.0 });
    assert_eq!(mgr.get_checkpoint().unwrap().scene_name, "second");
}

#[test]
fn on_entity_killed_records_dead_and_ghosts_out() {
    let mut mgr = SceneManager::<CheckpointInfo>::default();
    let now = now_ms();
    mgr.interest.ghost_in(1001, ReplicationZone::Immediate, StreamBucket::Enemy, now);
    mgr.on_entity_killed(1001);
    assert!(mgr.dead_entities.contains_key(&1001));
    assert!(!mgr.interest.is_ghosted_in(1001));
}

#[test]
fn on_entity_despawned_ghosts_out_without_dead_record() {
    let mut mgr = SceneManager::<CheckpointInfo>::default();
    let now = now_ms();
    mgr.interest.ghost_in(2001, ReplicationZone::Immediate, StreamBucket::Interactive, now);
    mgr.on_entity_despawned(2001);
    assert!(!mgr.dead_entities.contains_key(&2001));
    assert!(!mgr.interest.is_ghosted_in(2001));
}

#[test]
fn dead_entities_initially_empty() {
    let mgr = SceneManager::<CheckpointInfo>::default();
    assert!(mgr.dead_entities.is_empty());
}

#[test]
fn kill_at_a_given_time_is_recorded_with_it() {
    let mut mgr = SceneManager::<CheckpointInfo>::default();
    mgr.interest.ghost_in(7, ReplicationZone::Combat, StreamBucket::Enemy, 100);
    mgr.interest.ghost_in(8, ReplicationZone::Combat, StreamBucket::Enemy, 100);
    mgr.on_entity_killed_at(7, 1_000);
    assert!(mgr.dead_entities.contains_key(&7));
    assert_eq!(mgr.dead_entities.len(), 1);
    assert!(mgr.interest.is_ghosted_in(8));
    assert_eq!(mgr.interest.live_count(StreamBucket::Enemy), 1);
}

#[test]
fn scene_transition_resets_the_old_scene() {
    let mut mgr = SceneManager::<CheckpointInfo>::default();
    let mut entities: EntityManager<f32> = EntityManager::new();
    entities.insert(SceneEntity {
        id: 5,
        template_id: "eny_0001".to_string(),
        kind: EntityKind::Enemy,
        pos_x: 0.0,
        pos_y: 0.0,
        pos_z: 0.0,
        level_logic_id: 5,
        belong_level_script_id: 0,
    });
    mgr.interest.ghost_in(5, ReplicationZone::Immediate, StreamBucket::Enemy, 10);
    mgr.on_entity_killed_at(6, 20);
    mgr.set_revival_mode(RevivalMode::CheckPoint);
    let sw = mgr.begin_scene_transition("map02_lv001", Some(17), &[], &mut entities);
    assert_eq!(sw.left_scene, "map01_lv001");
    assert_eq!(sw.left_scene_id, 0);
    assert_eq!(sw.entered_scene, "map02_lv001");
    assert_eq!(sw.entered_scene_id, 17);
    assert_eq!(mgr.scene_name(), "map02_lv001");
    assert_eq!(mgr.scene_id, 17);
    assert_eq!(mgr.loading_state, SceneLoadingState::Loading);
    assert_eq!(mgr.current_revival_mode, RevivalMode::CheckPoint);
    assert!(mgr.dead_entities.is_empty());
    assert_eq!(mgr.interest.ghosted_count(), 0);
    assert_eq!(entities.len(), 0);
}

#[test]
fn unknown_scene_gets_id_zero() {
    let mut mgr = SceneManager::<CheckpointInfo>::default();
    let mut entities: EntityManager<f32> = EntityManager::new();
    let sw = mgr.begin_scene_transition("nowhere", None, &[], &mut entities);
    assert_eq!(sw.entered_scene_id, 0);
    mgr.update_from_world("map01_lv002", Some(3), &[]);
    assert_eq!(mgr.scene_name(), "map01_lv002");
    assert_eq!(mgr.scene_id, 3);
    assert_eq!(mgr.loading_state, SceneLoadingState::Loading);
}

fn make_scene_char(id: u64) -> SceneEntity<f32> {
    SceneEntity {
        id,
        template_id: format!("char_{}", id),
        kind: EntityKind::Character,
        pos_x: 0.0,
        pos_y: 0.0,
        pos_z: 0.0,
        level_logic_id: 0,
        belong_level_script_id: 0,
    }
}

#[test]
fn move_leader_already_at_front() {
    let mut chars = vec![make_scene_char(1), make_scene_char(2), make_scene_char(3)];
    move_leader_to_front(&mut chars, 1);
    assert_eq!(chars[0].id, 1);
}

#[test]
fn move_leader_from_back_to_front() {
    let mut chars = vec![make_scene_char(2), make_scene_char(3), make_scene_char(1)];
    move_leader_to_front(&mut chars, 1);
    assert_eq!(chars[0].id, 1);
}

#[test]
fn move_leader_from_middle() {
    let mut chars = vec![make_scene_char(2), make_scene_char(1), make_scene_char(3)];
    move_leader_to_front(&mut chars, 1);
    assert_eq!(chars[0].id, 1);
}

#[test]
fn move_leader_not_found_no_change() {
    let mut chars = vec![make_scene_char(2), make_scene_char(3)];
    move_leader_to_front(&mut chars, 999);
    assert_eq!(chars[0].id, 2);
}

#[test]
fn move_leader_empty_slice() {
    let mut chars: Vec<SceneEntity<f32>> = vec![];
    move_leader_to_front(&mut chars, 1);
    assert!(chars.is_empty());
}

#[test]
fn move_leader_single_element_noop() {
    let mut chars = vec![make_scene_char(5)];
    move_leader_to_front(&mut chars, 5);
    assert_eq!(chars.len(), 1);
    assert_eq!(chars[0].id, 5);
}

#[test]
fn move_leader_preserves_other_order() {
    let mut chars = vec![make_scene_char(2), make_scene_char(3), make_scene_char(4), make_scene_char(1)];
    move_leader_to_front(&mut chars, 1);
    assert_eq!(chars[0].id, 1);
    assert_eq!(chars[1].id, 2);
    assert_eq!(chars[2].id, 3);
    assert_eq!(chars[3].id, 4);
}

#[test]
fn move_leader_takes_the_first_match_and_keeps_the_tail() {
    let mut chars = vec![make_scene_char(2), make_scene_char(7), make_scene_char(3), make_scene_char(7)];
    move_leader_to_front(&mut chars, 7);
    let ids: Vec<u64> = chars.iter().map(|c| c.id).collect();
    assert_eq!(ids, vec![7, 2, 3, 7]);
}

fn make_char(is_dead: bool) -> Char {
    Char {
        template_id: "chr".to_string(),
        level: 1,
        exp: 0,
        break_stage: 0,
        is_dead,
        hp_bits: 0,
        ultimate_sp_bits: 0,
        cached_weapon_inst_id: None,
        own_time: 0,
        skill_levels: StrMap::new(),
    }
}

#[test]
fn team_change_splits_leaving_entering_and_alive() {
    let mut bag = CharBag::new_empty();
    // object ids 1..=5; 3 is dead
    for dead in [false, false, true, false, false] {
        bag.add_char(make_char(dead));
    }
    let change = team_change(&[1, 2, 3], &[2, 3, 4, 9], &bag);
    assert_eq!(change.leaving, vec![1]);
    assert_eq!(change.entering, vec![4]);
    assert_eq!(change.alive, vec![2, 4]);
}

#[test]
fn unchanged_team_moves_nobody() {
    let mut bag = CharBag::new_empty();
    bag.add_char(make_char(false));
    bag.add_char(make_char(false));
    let change = team_change(&[2, 1], &[1, 2], &bag);
    assert!(change.leaving.is_empty());
    assert!(change.entering.is_empty());
    assert_eq!(change.alive, vec![1, 2]);
}

#[test]
fn revival_brings_back_the_dead_of_the_current_team() {
    let mut bag = CharBag::new_empty();
    for dead in [true, false, true, true] {
        bag.add_char(make_char(dead));
    }
    bag.teams.push(Team {
        name: "Team 1".to_string(),
        char_team: [
            TeamSlot::Occupied(CharIndex(1)),
            TeamSlot::Occupied(CharIndex(2)),
            TeamSlot::Empty,
            TeamSlot::Occupied(CharIndex(0)),
        ],
        leader_index: CharIndex(1),
    });
    let mut mgr = SceneManager::<CheckpointInfo>::default();
    let ids = mgr.revival_targets(&bag, Some(RevivalMode::RepatriatePoint));
    assert_eq!(ids, vec![3, 1]);
    assert_eq!(mgr.current_revival_mode, RevivalMode::RepatriatePoint);
    for &id in &ids {
        bag.revive(id, 250.0f64.to_bits());
    }
    assert!(!bag.chars[0].is_dead);
    assert!(!bag.chars[2].is_dead);
    assert!(bag.chars[3].is_dead);
    assert_eq!(f64::from_bits(bag.chars[2].hp_bits), 250.0);
    assert_eq!(bag.chars[1].hp_bits, 0);
    assert!(mgr.revival_targets(&bag, None).is_empty());
    assert_eq!(mgr.current_revival_mode, RevivalMode::RepatriatePoint);
}

fn int_prop(key: &str, value: i64) -> LvProperty {
    LvProperty { key: key.to_string(), type_code: 3, entries: vec![ParamEntry { bit64: value, string: String::new() }] }
}

fn spawn(id: u64, template_id: &str, props: Vec<LvProperty>) -> InteractiveSpawn {
    InteractiveSpawn { level_logic_id: id, template_id: template_id.to_string(), entity_type: 32, properties: props }
}

fn sample_cache() -> SceneCache {
    let interactives = vec![
        spawn(11, "int_campfire_01", vec![int_prop("lit", 0)]),
        spawn(12, "int_chest_small", vec![int_prop("opened", 0), int_prop("tier", 2)]),
        spawn(12, "int_chest_small", vec![int_prop("opened", 1)]),
    ];
    SceneCache::build(&vec![(0, 0), (3, 4)], &vec![(1, 1), (1, 1), (2, 2)], &vec![], &interactives)
}

#[test]
fn scene_cache_records_residents_and_properties() {
    let cache = sample_cache();
    assert!(cache.is_resident(11));
    assert!(!cache.is_resident(12));
    assert_eq!(cache.enemy_grid().len(), 2);
    assert_eq!(cache.interactive_grid().query_square(1, 1, 0), vec![0, 1]);
    assert!(cache.npc_grid().is_empty());
    let props = cache.interactive_properties(12).unwrap();
    assert_eq!(props.len(), 1);
    assert_eq!(props.get("opened").unwrap().value_int_list, vec![1]);
    assert!(cache.interactive_properties(99).is_none());
}

#[test]
fn interactive_property_updates_go_through_the_scene_cache() {
    let mut mgr = SceneManager::<CheckpointInfo>::default();
    assert!(mgr.update_interactive_property(11, "lit", lv_property_to_dynamic_param(&int_prop("lit", 1))).is_none());
    assert!(mgr.get_interactive_properties(11).is_none());

    let mut entities: EntityManager<f32> = EntityManager::new();
    mgr.finish_scene_load(Some(4), &[], sample_cache(), vec![], &mut entities, 500);
    let prev = mgr.update_interactive_property(11, "lit", lv_property_to_dynamic_param(&int_prop("lit", 1)));
    assert_eq!(prev.unwrap().value_int_list, vec![0]);
    assert_eq!(mgr.get_interactive_properties(11).unwrap().get("lit").unwrap().value_int_list, vec![1]);
    let fresh = mgr.update_interactive_property(11, "fuel", lv_property_to_dynamic_param(&int_prop("fuel", 9)));
    assert!(fresh.is_none());
    assert_eq!(mgr.get_interactive_properties(11).unwrap().len(), 2);
    assert!(mgr.update_interactive_property(77, "lit", lv_property_to_dynamic_param(&int_prop("lit", 1))).is_none());
}

fn resident(id: u64, template_id: &str) -> SceneEntity<f32> {
    SceneEntity {
        id,
        template_id: template_id.to_string(),
        kind: EntityKind::Interactive,
        pos_x: 1.0,
        pos_y: 2.0,
        pos_z: 3.0,
        level_logic_id: id,
        belong_level_script_id: 0,
    }
}

#[test]
fn scene_load_installs_residents_for_the_whole_scene() {
    let mut mgr = SceneManager::<CheckpointInfo>::default();
    let mut entities: EntityManager<f32> = EntityManager::new();
    mgr.begin_scene_transition("map01_lv002", Some(8), &[], &mut entities);
    mgr.finish_scene_load(Some(8), &[], sample_cache(), vec![resident(11, "int_campfire_01"), resident(15, "int_teleport_a")], &mut entities, 1_234);
    assert!(mgr.is_in_scene());
    assert_eq!(mgr.scene_id, 8);
    assert!(mgr.scene_cache.is_some());
    assert_eq!(entities.len(), 2);
    assert!(entities.contains(11));
    let entry = mgr.interest.entry(15).unwrap();
    assert!(entry.always_resident);
    assert_eq!(entry.zone, ReplicationZone::Immediate);
    assert_eq!(entry.bucket, StreamBucket::Interactive);
    assert_eq!(entry.last_sync_ms, 1_234);
    assert_eq!(mgr.interest.live_count(StreamBucket::Interactive), 2);
    mgr.begin_scene_transition("map01_lv003", None, &[], &mut entities);
    assert!(mgr.scene_cache.is_none());
}

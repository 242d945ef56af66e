use perlica::logic::entity::{EntityKind, EntityManager, SceneEntity};
use perlica::logic::traits::classify::Classified;
use perlica::logic::traits::item::{Identifiable, Templated};

fn make_entity(id: u64, kind: EntityKind) -> SceneEntity<f32> {
    SceneEntity {
        id,
        template_id: format!("tmpl_{}", id),
        kind,
        pos_x: 0.0,
        pos_y: 0.0,
        pos_z: 0.0,
        level_logic_id: id,
        belong_level_script_id: 0,
    }
}

#[test]
fn new_manager_is_empty() {
    let mgr: EntityManager<f32> = EntityManager::new();
    assert_eq!(mgr.len(), 0);
    assert!(mgr.iter().first().is_none());
}

#[test]
fn insert_and_get() {
    let mut mgr = EntityManager::new();
    let e = make_entity(1, EntityKind::Character);
    mgr.insert(e);
    assert!(mgr.contains(1));
    assert!(mgr.get(1).is_some());
    assert_eq!(mgr.get(1).unwrap().template_id, "tmpl_1");
}

#[test]
fn insert_replaces_same_id() {
    let mut mgr = EntityManager::new();
    mgr.insert(make_entity(1, EntityKind::Character));
    mgr.insert(make_entity(1, EntityKind::Enemy));
    assert_eq!(mgr.len(), 1);
    assert_eq!(mgr.get(1).unwrap().kind, EntityKind::Enemy);
}

#[test]
fn remove_entity() {
    let mut mgr = EntityManager::new();
    mgr.insert(make_entity(1, EntityKind::Character));
    let removed = mgr.remove(1);
    assert!(removed.is_some());
    assert_eq!(removed.unwrap().kind, EntityKind::Character);
    assert!(!mgr.contains(1));
}

#[test]
fn remove_nonexistent_returns_none() {
    let mut mgr: EntityManager<f32> = EntityManager::new();
    assert!(mgr.remove(999).is_none());
}

#[test]
fn next_monster_id_starts_at_1000() {
    let mut mgr: EntityManager<f32> = EntityManager::new();
    assert_eq!(mgr.next_monster_id(), 1000);
    assert_eq!(mgr.next_monster_id(), 1001);
    assert_eq!(mgr.next_monster_id(), 1002);
}

#[test]
fn peek_next_monster_id_does_not_advance() {
    let mut mgr: EntityManager<f32> = EntityManager::new();
    assert_eq!(mgr.peek_next_monster_id(), 1000);
    assert_eq!(mgr.peek_next_monster_id(), 1000);
    mgr.next_monster_id();
    assert_eq!(mgr.peek_next_monster_id(), 1001);
}

#[test]
fn bump_next_monster_id() {
    let mut mgr: EntityManager<f32> = EntityManager::new();
    mgr.bump_next_monster_id_to(1050);
    assert_eq!(mgr.next_monster_id(), 1050);
}

#[test]
fn bump_next_monster_id_noop_if_lower() {
    let mut mgr: EntityManager<f32> = EntityManager::new();
    mgr.next_monster_id();
    mgr.bump_next_monster_id_to(1000);
    assert_eq!(mgr.next_monster_id(), 1001);
}

#[test]
fn bump_next_monster_id_saturating_sub() {
    let mut mgr: EntityManager<f32> = EntityManager::new();
    mgr.bump_next_monster_id_to(500);
    assert_eq!(mgr.next_monster_id(), 1000);
}

#[test]
fn clear_resets_everything() {
    let mut mgr = EntityManager::new();
    mgr.insert(make_entity(1, EntityKind::Character));
    mgr.next_monster_id();
    mgr.next_monster_id();
    mgr.clear();
    assert_eq!(mgr.len(), 0);
    assert_eq!(mgr.next_monster_id(), 1000);
}

#[test]
fn ids_returns_all_ids() {
    let mut mgr = EntityManager::new();
    mgr.insert(make_entity(5, EntityKind::Npc));
    mgr.insert(make_entity(10, EntityKind::Enemy));
    let mut ids = mgr.ids();
    ids.sort();
    assert_eq!(ids, vec![5, 10]);
}

#[test]
fn ids_by_kind_filters_correctly() {
    let mut mgr = EntityManager::new();
    mgr.insert(make_entity(1, EntityKind::Character));
    mgr.insert(make_entity(2, EntityKind::Enemy));
    mgr.insert(make_entity(3, EntityKind::Enemy));
    mgr.insert(make_entity(4, EntityKind::Npc));
    let mut enemy_ids = mgr.ids_by_kind(EntityKind::Enemy);
    enemy_ids.sort();
    assert_eq!(enemy_ids, vec![2, 3]);
    assert!(mgr.ids_by_kind(EntityKind::Interactive).is_empty());
}

#[test]
fn filtered_iterators() {
    let mut mgr = EntityManager::new();
    mgr.insert(make_entity(1, EntityKind::Character));
    mgr.insert(make_entity(2, EntityKind::Enemy));
    mgr.insert(make_entity(3, EntityKind::Npc));
    mgr.insert(make_entity(4, EntityKind::Interactive));
    assert_eq!(mgr.monsters().len(), 1);
    assert_eq!(mgr.characters().len(), 1);
    assert_eq!(mgr.npcs().len(), 1);
    assert_eq!(mgr.interactives().len(), 1);
}

#[test]
fn get_mut_returns_mutable_ref() {
    let mut mgr = EntityManager::new();
    mgr.insert(make_entity(1, EntityKind::Character));
    if let Some(e) = mgr.get_mut(1) {
        e.pos_x = 42.0;
    }
    assert_eq!(mgr.get(1).unwrap().pos_x, 42.0);
}

#[test]
fn classified_filters() {
    let e = SceneEntity {
        id: 1,
        template_id: "tmpl".into(),
        kind: EntityKind::Enemy,
        pos_x: 0.0f32,
        pos_y: 0.0,
        pos_z: 0.0,
        level_logic_id: 0,
        belong_level_script_id: 0,
    };
    assert!(e.is_enemy());
    assert!(!e.is_character());
}

#[test]
fn scene_entity_facets() {
    let e = SceneEntity {
        id: 42,
        template_id: "npc_innkeeper".into(),
        kind: EntityKind::Npc,
        pos_x: 0.0f32,
        pos_y: 0.0,
        pos_z: 0.0,
        level_logic_id: 0,
        belong_level_script_id: 0,
    };
    assert_eq!(<SceneEntity<f32> as Identifiable>::id(&e), 42);
    assert_eq!(<SceneEntity<f32> as Templated>::template_id(&e), "npc_innkeeper");
}

#[test]
fn removing_one_entity_keeps_the_others() {
    let mut mgr = EntityManager::new();
    mgr.insert(make_entity(1, EntityKind::Enemy));
    mgr.insert(make_entity(2, EntityKind::Npc));
    mgr.insert(make_entity(3, EntityKind::Enemy));
    mgr.remove(2);
    assert_eq!(mgr.ids(), vec![1, 3]);
    assert_eq!(mgr.get(3).unwrap().template_id, "tmpl_3");
}

use perlica::logic::mission::{GuideManager, GUIDE_STATE_COMPLETED, PROLOGUE_FIRST_QUEST_ID, PROLOGUE_MISSION_ID};

#[test]
fn guide_manager_default_is_empty() {
    let gm = GuideManager::default();
    assert!(gm.completed_groups().is_empty());
    assert!(gm.completed_key_steps().is_empty());
}

#[test]
fn guide_manager_mark_group_completed_adds_group() {
    let mut gm = GuideManager::default();
    gm.mark_group_completed("guide_001");
    assert_eq!(gm.completed_groups(), &["guide_001"]);
}

#[test]
fn guide_manager_mark_group_completed_no_duplicate() {
    let mut gm = GuideManager::default();
    gm.mark_group_completed("guide_001");
    gm.mark_group_completed("guide_001");
    assert_eq!(gm.completed_groups().len(), 1);
}

#[test]
fn guide_manager_mark_group_completed_sorts_alphabetically() {
    let mut gm = GuideManager::default();
    gm.mark_group_completed("guide_b");
    gm.mark_group_completed("guide_a");
    gm.mark_group_completed("guide_c");
    assert_eq!(gm.completed_groups(), &["guide_a", "guide_b", "guide_c"]);
}

#[test]
fn guide_manager_mark_key_step_completed_adds_step() {
    let mut gm = GuideManager::default();
    gm.mark_key_step_completed("step_001");
    assert_eq!(gm.completed_key_steps(), &["step_001"]);
}

#[test]
fn guide_manager_mark_key_step_completed_no_duplicate() {
    let mut gm = GuideManager::default();
    gm.mark_key_step_completed("step_001");
    gm.mark_key_step_completed("step_001");
    assert_eq!(gm.completed_key_steps().len(), 1);
}

#[test]
fn guide_manager_mark_key_step_completed_sorts_alphabetically() {
    let mut gm = GuideManager::default();
    gm.mark_key_step_completed("step_c");
    gm.mark_key_step_completed("step_a");
    gm.mark_key_step_completed("step_b");
    assert_eq!(gm.completed_key_steps(), &["step_a", "step_b", "step_c"]);
}

#[test]
fn guide_manager_groups_and_steps_independent() {
    let mut gm = GuideManager::default();
    gm.mark_group_completed("group_a");
    gm.mark_key_step_completed("step_a");
    assert_eq!(gm.completed_groups().len(), 1);
    assert_eq!(gm.completed_key_steps().len(), 1);
    assert_eq!(gm.completed_groups()[0], "group_a");
    assert_eq!(gm.completed_key_steps()[0], "step_a");
}

#[test]
fn prologue_mission_id_constant() {
    assert_eq!(PROLOGUE_MISSION_ID, "mission_mai_e0m1");
}

#[test]
fn prologue_first_quest_id_constant() {
    assert_eq!(PROLOGUE_FIRST_QUEST_ID, "mission_mai_e0m1_q#2");
}

#[test]
fn guide_state_completed_constant() {
    assert_eq!(GUIDE_STATE_COMPLETED, 3);
}

#[test]
fn marking_is_idempotent_and_order_free() {
    let mut a = GuideManager::default();
    let mut b = GuideManager::default();
    for g in ["z", "b", "b", "ä", "a", "B"] {
        a.mark_group_completed(g);
    }
    for g in ["B", "a", "ä", "z", "b"] {
        b.mark_group_completed(g);
    }
    assert_eq!(a.completed_groups(), b.completed_groups());
    assert_eq!(a.completed_groups(), &["B", "a", "b", "z", "ä"]);
}

#[test]
fn guide_manager_sync_packet_empty() {
    let gm = GuideManager::default();
    let pkt = gm.sync_packet();
    assert!(pkt.guide_group_list.is_empty());
    assert!(pkt.completed_repeat_accept_guide_group_list.is_empty());
}

#[test]
fn guide_manager_sync_packet_with_data() {
    let mut gm = GuideManager::default();
    gm.mark_group_completed("g1");
    gm.mark_group_completed("g2");
    gm.mark_key_step_completed("s1");
    let pkt = gm.sync_packet();
    assert_eq!(pkt.guide_group_list.len(), 2);
    assert_eq!(pkt.guide_group_list[0].guide_group_id, "g1");
    assert_eq!(pkt.guide_group_list[0].guide_state, GUIDE_STATE_COMPLETED);
    assert_eq!(pkt.guide_group_list[1].guide_group_id, "g2");
    assert_eq!(pkt.completed_repeat_accept_guide_group_list, vec!["s1"]);
}

use perlica::logic::skill::{
    get_normal_skill, initial_skill_levels, max_skill_level, skill_level_states, SkillBundle, SkillEntry,
};
use perlica::logic::str_map::StrMap;

fn bundle(entries: &[(&str, u32)]) -> SkillBundle {
    SkillBundle { entries: entries.iter().map(|(id, level)| SkillEntry { skill_id: id.to_string(), level: *level }).collect() }
}

fn roster() -> Vec<SkillBundle> {
    vec![
        bundle(&[("chr_a_normal_skill_1", 1), ("chr_a_normal_skill_2", 2), ("chr_a_normal_skill_3", 3)]),
        bundle(&[("chr_a_skill_1", 1), ("chr_a_skill_2", 2)]),
        bundle(&[]),
    ]
}

#[test]
fn max_skill_level_is_the_bundle_cap() {
    let b = roster();
    assert_eq!(max_skill_level(&b, "chr_a_skill_2"), 2);
    assert_eq!(max_skill_level(&b, "chr_a_normal_skill_1"), 3);
    assert_eq!(max_skill_level(&b, "unknown"), 1);
    assert_eq!(max_skill_level(&[], "chr_a_skill_2"), 1);
}

#[test]
fn normal_skill_is_first_matching_bundle_head() {
    assert_eq!(get_normal_skill(&roster()), "chr_a_normal_skill_1");
    let without = vec![bundle(&[("chr_b_skill_1", 1), ("chr_b_normal_skill_2", 2)])];
    assert_eq!(get_normal_skill(&without), "");
}

#[test]
fn skill_level_states_follow_stored_levels() {
    let mut levels = StrMap::new();
    levels.insert("chr_a_normal_skill_1".to_string(), 2u32);
    let states = skill_level_states(&roster(), &levels);
    assert_eq!(states.len(), 2);
    assert_eq!((states[0].skill_id.as_str(), states[0].skill_level, states[0].skill_max_level), ("chr_a_normal_skill_2", 2, 3));
    assert_eq!((states[1].skill_id.as_str(), states[1].skill_level, states[1].skill_max_level), ("chr_a_skill_1", 1, 2));
}

#[test]
fn skill_level_states_skip_unlisted_levels() {
    let mut levels = StrMap::new();
    levels.insert("chr_a_skill_1".to_string(), 9u32);
    let states = skill_level_states(&roster(), &levels);
    assert_eq!(states.len(), 1);
    assert_eq!(states[0].skill_id, "chr_a_normal_skill_1");
}

#[test]
fn initial_skill_levels_start_each_bundle_at_one() {
    let m = initial_skill_levels(&roster());
    assert_eq!(m.len(), 2);
    assert_eq!(m.get("chr_a_normal_skill_1"), Some(&1));
    assert_eq!(m.get("chr_a_skill_1"), Some(&1));
    assert_eq!(m.get("chr_a_skill_2"), None);
}

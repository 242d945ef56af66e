use perlica::config::item::CraftShowingType;
use perlica::config::weapon::{Weapon, WeaponAssets};
use perlica::logic::char_bag::{
    build_default_teams, char_bag_from_records, new_bag, BagRecords, Char, CharBag, CharIndex, CharSyncStatus,
    CharacterTemplate, LevelOneStats, Meta, SkillRecord, SlotRecord, StackRecord, Team, TeamSlot,
};
use perlica::logic::item::{EquipInstance, EquipInstId, GemInstId, GemInstance, WeaponInstId, WeaponInstance};
use perlica::logic::skill::{SkillBundle, SkillEntry};
use perlica::logic::str_map::StrMap;

fn make_char(template_id: &str) -> Char {
    Char {
        template_id: template_id.to_string(),
        level: 1,
        exp: 0,
        break_stage: 0,
        is_dead: false,
        hp_bits: 500.0f64.to_bits(),
        ultimate_sp_bits: 0.0f32.to_bits(),
        cached_weapon_inst_id: None,
        own_time: 1_700_000_000_000,
        skill_levels: StrMap::new(),
    }
}

#[test]
fn add_char_returns_sequential_indexes() {
    let mut bag = CharBag::new_empty();
    assert_eq!(bag.add_char(make_char("chr_0003_endminf")), CharIndex(0));
    assert_eq!(bag.add_char(make_char("chr_0004_pelica")), CharIndex(1));
    assert_eq!(bag.get_char(CharIndex(1)).map(|c| c.template_id.clone()), Some("chr_0004_pelica".to_string()));
    assert!(bag.get_char(CharIndex(2)).is_none());
}

#[test]
fn char_lookup_by_template_and_object_id() {
    let mut bag = CharBag::new_empty();
    bag.add_char(make_char("a"));
    bag.add_char(make_char("b"));
    bag.add_char(make_char("b"));
    assert_eq!(bag.char_index_by_id("b"), Some(CharIndex(1)));
    assert_eq!(bag.char_index_by_id("zzz"), None);
    assert_eq!(bag.get_char_by_objid(1).map(|c| c.template_id.clone()), Some("a".to_string()));
    assert!(bag.get_char_by_objid(4).is_none());
}

#[test]
fn battle_info_updates_only_that_char() {
    let mut bag = CharBag::new_empty();
    bag.add_char(make_char("a"));
    bag.add_char(make_char("b"));
    bag.update_battle_info(2, 123.5f64.to_bits(), 40.0f32.to_bits());
    assert_eq!(f64::from_bits(bag.chars[1].hp_bits), 123.5);
    assert_eq!(f32::from_bits(bag.chars[1].ultimate_sp_bits), 40.0);
    assert_eq!(f64::from_bits(bag.chars[0].hp_bits), 500.0);
    // an unknown object id changes nothing
    bag.update_battle_info(9, 1.0f64.to_bits(), 1.0f32.to_bits());
    assert_eq!(bag.chars.len(), 2);
}

#[test]
fn default_teams_fill_four_slots_in_order() {
    let mut roster = StrMap::new();
    for (i, name) in ["a", "b", "c", "d", "e"].iter().enumerate() {
        roster.insert(name.to_string(), CharIndex(i as u64));
    }
    let wanted: Vec<String> = ["missing", "c", "a", "e", "b", "d"].iter().map(|s| s.to_string()).collect();
    let teams = build_default_teams(&roster, &wanted);
    assert_eq!(teams.len(), 5);
    assert_eq!(teams[0].name, "Team 1");
    assert_eq!(
        teams[0].char_team,
        [
            TeamSlot::Occupied(CharIndex(2)),
            TeamSlot::Occupied(CharIndex(0)),
            TeamSlot::Occupied(CharIndex(4)),
            TeamSlot::Occupied(CharIndex(1)),
        ]
    );
    assert_eq!(teams[0].leader_index, CharIndex(2));
    assert_eq!(teams[0].char_team[0].object_id(), Some(3));
    for (k, t) in teams.iter().enumerate().skip(1) {
        assert_eq!(t.name, format!("Team {}", k + 1));
        assert_eq!(t.char_team, [TeamSlot::Empty; 4]);
        assert_eq!(t.leader_index, CharIndex(0));
    }
}

#[test]
fn default_team_without_known_chars_is_empty() {
    let roster: StrMap<CharIndex> = StrMap::new();
    let teams = build_default_teams(&roster, &["x".to_string()]);
    assert_eq!(teams[0].char_team, [TeamSlot::Empty; 4]);
    assert_eq!(teams[0].leader_index, CharIndex(0));
}

#[test]
fn char_status_lists_every_char_by_object_id() {
    let mut bag = CharBag::new_empty();
    bag.add_char(make_char("a"));
    let mut b = make_char("b");
    b.is_dead = true;
    b.hp_bits = 0.0f64.to_bits();
    bag.add_char(b);
    let status = bag.char_status();
    assert_eq!(
        status,
        vec![
            CharSyncStatus { objid: 1, is_dead: false, hp_bits: 500.0f64.to_bits(), ultimate_sp_bits: 0.0f32.to_bits() },
            CharSyncStatus { objid: 2, is_dead: true, hp_bits: 0.0f64.to_bits(), ultimate_sp_bits: 0.0f32.to_bits() },
        ]
    );
}

#[test]
fn team_sync_states_name_members_leader_and_skills() {
    let mut bag = CharBag::new_empty();
    bag.add_char(make_char("chr_a"));
    bag.add_char(make_char("chr_b"));
    bag.add_char(make_char("chr_c"));
    bag.teams.push(Team {
        name: "Team 1".to_string(),
        char_team: [
            TeamSlot::Occupied(CharIndex(2)),
            TeamSlot::Empty,
            TeamSlot::Occupied(CharIndex(0)),
            TeamSlot::Empty,
        ],
        leader_index: CharIndex(2),
    });
    bag.teams.push(Team {
        name: "Team 2".to_string(),
        char_team: [TeamSlot::Empty, TeamSlot::Empty, TeamSlot::Empty, TeamSlot::Empty],
        leader_index: CharIndex(0),
    });
    let mut skills = StrMap::new();
    skills.insert("chr_a".to_string(), "chr_a_normal_skill".to_string());
    let states = bag.team_sync_states(&skills);
    assert_eq!(states.len(), 2);
    assert_eq!(states[0].name, "Team 1");
    assert_eq!(states[0].char_ids, vec![3, 1]);
    assert_eq!(states[0].leader_id, 3);
    assert_eq!(states[0].member_skills.len(), 2);
    assert_eq!(states[0].member_skills[&1], "chr_a_normal_skill");
    assert_eq!(states[0].member_skills[&3], "");
    assert!(states[1].char_ids.is_empty());
    assert_eq!(states[1].leader_id, 1);
    assert!(states[1].member_skills.is_empty());
}

fn weapon_inst(id: u64, owner: u64) -> WeaponInstance {
    WeaponInstance {
        inst_id: WeaponInstId(id),
        template_id: "wpn_0002".to_string(),
        is_lock: false,
        is_new: false,
        own_time: 5,
        equip_char_id: owner,
        breakthrough_lv: 0,
    }
}

fn gem_inst(id: u64, weapon: u64) -> GemInstance {
    GemInstance {
        inst_id: GemInstId(id),
        template_id: "gem_1".to_string(),
        is_lock: false,
        is_new: false,
        own_time: 5,
        attach_weapon_id: weapon,
        craft_slot: CraftShowingType::Unset,
    }
}

fn equip_inst(id: u64, owner: u64) -> EquipInstance {
    EquipInstance {
        inst_id: EquipInstId(id),
        template_id: "equip_1".to_string(),
        is_lock: false,
        is_new: false,
        own_time: 5,
        equip_char_id: owner,
        slot: CraftShowingType::Unset,
    }
}

fn records(
    chars: Vec<(u64, Char)>,
    meta: Meta,
    weapons: Vec<WeaponInstance>,
    gems: Vec<GemInstance>,
    equips: Vec<EquipInstance>,
) -> BagRecords {
    BagRecords {
        chars,
        skills: vec![],
        teams: vec![],
        slots: vec![],
        meta,
        weapons,
        gems,
        equips,
        stacks: vec![],
    }
}

fn named_team(name: &str, leader: u64) -> Team {
    Team { name: name.to_string(), char_team: [TeamSlot::Empty; 4], leader_index: CharIndex(leader) }
}

#[test]
fn restored_bag_puts_chars_at_their_indexes() {
    let rows = vec![(2, make_char("c")), (0, make_char("a")), (2, make_char("c2"))];
    let bag = char_bag_from_records(records(
        rows,
        Meta { curr_team_index: 1 },
        vec![weapon_inst(1, 1)],
        vec![gem_inst(1, 1)],
        vec![equip_inst(3, 0)],
    ))
    .unwrap();
    assert_eq!(bag.chars.len(), 3);
    assert_eq!(bag.chars[0].template_id, "a");
    assert_eq!(bag.chars[1].template_id, "");
    assert_eq!(bag.chars[1].level, 0);
    assert_eq!(bag.chars[2].template_id, "c2");
    assert_eq!(bag.meta.curr_team_index, 1);
    assert_eq!(bag.weapons.len(), 1);
    assert_eq!(bag.gems.len(), 1);
    assert_eq!(bag.equips.len(), 1);
    assert!(bag.teams.is_empty());
}

#[test]
fn restored_bag_keeps_the_last_of_repeated_instance_ids() {
    let bag = char_bag_from_records(records(
        vec![],
        Meta { curr_team_index: 0 },
        vec![weapon_inst(4, 0), weapon_inst(7, 0), weapon_inst(4, 2)],
        vec![gem_inst(1, 0), gem_inst(1, 4)],
        vec![equip_inst(2, 1), equip_inst(2, 3)],
    ))
    .unwrap();
    assert_eq!(bag.weapons.len(), 2);
    assert_eq!(bag.weapons.all_weapons()[0].inst_id, WeaponInstId(4));
    assert_eq!(bag.weapons.get(WeaponInstId(4)).unwrap().equip_char_id, 2);
    assert_eq!(bag.gems.len(), 1);
    assert_eq!(bag.gems.get(GemInstId(1)).unwrap().attach_weapon_id, 4);
    assert_eq!(bag.equips.len(), 1);
    assert_eq!(bag.equips.get(EquipInstId(2)).unwrap().equip_char_id, 3);
    let empty = char_bag_from_records(records(vec![], Meta { curr_team_index: 0 }, vec![], vec![], vec![])).unwrap();
    assert!(empty.chars.is_empty());
    assert!(empty.special_items.is_empty());
}

#[test]
fn restored_bag_merges_skills_teams_and_slots() {
    let mut r = records(vec![(0, make_char("a")), (2, make_char("c"))], Meta { curr_team_index: 2 }, vec![], vec![], vec![]);
    r.skills = vec![
        SkillRecord { char_index: 0, skill_id: "sk_a".to_string(), skill_level: 3 },
        SkillRecord { char_index: 1, skill_id: "sk_gap".to_string(), skill_level: 1 },
        SkillRecord { char_index: 0, skill_id: "sk_a".to_string(), skill_level: 5 },
        SkillRecord { char_index: 9, skill_id: "sk_none".to_string(), skill_level: 2 },
    ];
    r.teams = vec![(0, named_team("Alpha", 2)), (2, named_team("Gamma", 0))];
    r.slots = vec![
        SlotRecord { team_index: 0, slot_index: 0, char_index: Some(2) },
        SlotRecord { team_index: 0, slot_index: 1, char_index: Some(0) },
        SlotRecord { team_index: 1, slot_index: 3, char_index: Some(0) },
        SlotRecord { team_index: 0, slot_index: 1, char_index: None },
        SlotRecord { team_index: 0, slot_index: 4, char_index: Some(0) },
        SlotRecord { team_index: 5, slot_index: 0, char_index: Some(0) },
    ];
    let bag = char_bag_from_records(r).unwrap();
    assert_eq!(bag.chars.len(), 3);
    assert_eq!(bag.chars[0].skill_levels.get("sk_a"), Some(&5));
    assert_eq!(bag.chars[0].skill_levels.len(), 1);
    assert_eq!(bag.chars[1].template_id, "");
    assert_eq!(bag.chars[1].skill_levels.get("sk_gap"), Some(&1));
    assert!(bag.chars[2].skill_levels.is_empty());
    assert_eq!(bag.teams.len(), 3);
    assert_eq!(bag.teams[0].name, "Alpha");
    assert_eq!(bag.teams[0].leader_index, CharIndex(2));
    assert_eq!(bag.teams[0].char_team, [TeamSlot::Occupied(CharIndex(2)), TeamSlot::Empty, TeamSlot::Empty, TeamSlot::Empty]);
    assert_eq!(bag.teams[1].name, "");
    assert_eq!(bag.teams[1].leader_index, CharIndex(0));
    assert_eq!(bag.teams[1].char_team[3], TeamSlot::Occupied(CharIndex(0)));
    assert_eq!(bag.teams[2].name, "Gamma");
    assert_eq!(bag.current_leader_id(), 1);
}

#[test]
fn restored_bag_fills_the_stackable_depots() {
    let mut r = records(vec![], Meta { curr_team_index: 0 }, vec![], vec![], vec![]);
    r.stacks = vec![
        StackRecord { depot_type: 4, template_id: "item_gold".to_string(), count: 10 },
        StackRecord { depot_type: 5, template_id: "item_quest".to_string(), count: 1 },
        StackRecord { depot_type: 6, template_id: "item_ore".to_string(), count: 7 },
        StackRecord { depot_type: 4, template_id: "item_gold".to_string(), count: 12 },
    ];
    let bag = char_bag_from_records(r).unwrap();
    assert_eq!(bag.special_items.get("item_gold"), Some(&12));
    assert_eq!(bag.special_items.len(), 1);
    assert_eq!(bag.mission_items.get("item_quest"), Some(&1));
    assert_eq!(bag.factory_items.get("item_ore"), Some(&7));
    assert_eq!(bag.factory_items.get("item_gold"), None);
}

#[test]
fn restored_bag_refuses_an_unknown_stackable_depot() {
    let mut r = records(vec![(0, make_char("a"))], Meta { curr_team_index: 0 }, vec![], vec![], vec![]);
    r.stacks = vec![
        StackRecord { depot_type: 4, template_id: "item_gold".to_string(), count: 10 },
        StackRecord { depot_type: 1, template_id: "wpn_0002".to_string(), count: 1 },
    ];
    assert!(char_bag_from_records(r).is_err());
}

#[test]
fn current_leader_id_is_the_leader_index_plus_one() {
    let mut bag = CharBag::new_empty();
    bag.teams = vec![named_team("Team 1", 0), named_team("Team 2", 3)];
    assert_eq!(bag.current_leader_id(), 1);
    bag.meta.curr_team_index = 1;
    assert_eq!(bag.current_leader_id(), 4);
}

#[test]
fn validation_repairs_dangling_references() {
    let mut a = make_char("a");
    a.cached_weapon_inst_id = Some(WeaponInstId(1));
    let mut b = make_char("b");
    b.cached_weapon_inst_id = Some(WeaponInstId(2));
    let mut bag = char_bag_from_records(records(
        vec![(0, a), (1, b)],
        Meta { curr_team_index: 0 },
        vec![weapon_inst(1, 1), weapon_inst(2, 1), weapon_inst(3, 9)],
        vec![gem_inst(1, 3), gem_inst(2, 7)],
        vec![equip_inst(1, 2), equip_inst(2, 5)],
    ))
    .unwrap();
    bag.validate_after_load();
    assert_eq!(bag.chars[0].cached_weapon_inst_id, Some(WeaponInstId(1)));
    assert_eq!(bag.chars[1].cached_weapon_inst_id, None);
    assert_eq!(bag.weapons.get(WeaponInstId(3)).unwrap().equip_char_id, 0);
    assert_eq!(bag.weapons.get(WeaponInstId(2)).unwrap().equip_char_id, 1);
    assert_eq!(bag.gems.get(GemInstId(1)).unwrap().attach_weapon_id, 3);
    assert_eq!(bag.gems.get(GemInstId(2)).unwrap().attach_weapon_id, 0);
    assert_eq!(bag.equips.get(EquipInstId(1)).unwrap().equip_char_id, 2);
    assert_eq!(bag.equips.get(EquipInstId(2)).unwrap().equip_char_id, 0);
}

fn table_weapon(id: &str, weapon_type: u32, rarity: u32) -> (String, Weapon) {
    (
        id.to_string(),
        Weapon {
            weapon_id: id.to_string(),
            weapon_type,
            rarity,
            max_lv: 90,
            breakthrough_template_id: String::new(),
            level_template_id: String::new(),
        },
    )
}

fn template(id: &str, weapon_type: u32, skills: &[&str], level_one: bool) -> CharacterTemplate {
    CharacterTemplate {
        template_id: id.to_string(),
        weapon_type,
        skills: skills
            .iter()
            .map(|s| SkillBundle { entries: vec![SkillEntry { skill_id: s.to_string(), level: 1 }] })
            .collect(),
        level_one: if level_one { Some(LevelOneStats { level: 1, break_stage: 0, hp_bits: 800.0f64.to_bits() }) } else { None },
    }
}

#[test]
fn new_bag_fills_chars_weapons_and_teams() {
    let weapons = WeaponAssets::from_tables(
        vec![table_weapon("wpn_0002", 9, 1), table_weapon("wpn_sword_a", 1, 4), table_weapon("wpn_sword_b", 1, 5)],
        vec![],
        vec![],
        vec![],
    );
    let templates = vec![
        template("chr_a", 1, &["a_normal_skill", "a_ult"], true),
        template("chr_placeholder", 1, &[], true),
        template("chr_nostats", 1, &["x"], false),
        template("chr_b", 3, &["b_normal_skill"], true),
    ];
    let bag = new_bag(&templates, &weapons, &["chr_b".to_string(), "chr_a".to_string()], 1234).unwrap();
    assert_eq!(bag.chars.len(), 2);
    assert_eq!(bag.chars[0].template_id, "chr_a");
    assert_eq!(bag.chars[1].template_id, "chr_b");
    assert_eq!(bag.chars[0].skill_levels.get("a_ult"), Some(&1));
    assert_eq!(f64::from_bits(bag.chars[1].hp_bits), 800.0);
    assert_eq!(bag.chars[1].own_time, 1234);
    assert_eq!(bag.weapons.len(), 2);
    let w1 = bag.weapons.get(WeaponInstId(1)).unwrap();
    assert_eq!(w1.template_id, "wpn_sword_b");
    assert_eq!(w1.equip_char_id, 1);
    let w2 = bag.weapons.get(WeaponInstId(2)).unwrap();
    assert_eq!(w2.template_id, "wpn_0002");
    assert_eq!(w2.equip_char_id, 2);
    assert_eq!(bag.weapons.next_inst_id(), 3);
    assert_eq!(bag.teams.len(), 5);
    assert_eq!(bag.teams[0].char_team[0], TeamSlot::Occupied(CharIndex(1)));
    assert_eq!(bag.teams[0].char_team[1], TeamSlot::Occupied(CharIndex(0)));
    assert_eq!(bag.teams[0].leader_index, CharIndex(1));
    assert_eq!(bag.meta.curr_team_index, 0);
}

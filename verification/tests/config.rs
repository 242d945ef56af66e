use perlica::config::factory::{FRegionAssets, RegionData, RegionItem};
use perlica::config::item::{
    CraftShowingType, I18nText, ItemAssets, ItemConfig, ItemDepotType, ItemKind, RawItemEntry,
};
use perlica::config::mission::{mission_keys, parse_quest_key, MissionAssets, MissionKind};
use perlica::config::reward::{ItemBundle, RewardAssets, RewardEntry};
use perlica::config::weapon::{
    BreakthroughEntry, BreakthroughTemplate, UpgradeSumEntry, UpgradeTemplateSum, Weapon, WeaponAssets,
    WeaponExpItem,
};

fn weapon(id: &str, weapon_type: u32, rarity: u32, max_lv: u32) -> (String, Weapon) {
    (
        id.to_string(),
        Weapon {
            weapon_id: id.to_string(),
            weapon_type,
            rarity,
            max_lv,
            breakthrough_template_id: "bt_1".to_string(),
            level_template_id: "lv_1".to_string(),
        },
    )
}

fn assets() -> WeaponAssets {
    let bt = BreakthroughTemplate {
        list: vec![
            BreakthroughEntry { breakthrough_lv: 20, breakthrough_show_lv: 1 },
            BreakthroughEntry { breakthrough_lv: 40, breakthrough_show_lv: 2 },
            BreakthroughEntry { breakthrough_lv: 60, breakthrough_show_lv: 3 },
        ],
    };
    let curve = UpgradeTemplateSum {
        list: vec![
            UpgradeSumEntry { weapon_lv: 1, lv_up_exp_sum: 0 },
            UpgradeSumEntry { weapon_lv: 2, lv_up_exp_sum: 100 },
            UpgradeSumEntry { weapon_lv: 3, lv_up_exp_sum: 300 },
            UpgradeSumEntry { weapon_lv: 4, lv_up_exp_sum: 600 },
        ],
    };
    WeaponAssets::from_tables(
        vec![weapon("wpn_a", 1, 5, 3), weapon("wpn_b", 1, 6, 90), weapon("wpn_c", 2, 6, 90), weapon("wpn_d", 1, 6, 90)],
        vec![("bt_1".to_string(), bt)],
        vec![("lv_1".to_string(), curve)],
        vec![
            WeaponExpItem { exp_item_id: "item_exp_s".to_string(), item_exp: 200 },
            WeaponExpItem { exp_item_id: String::new(), item_exp: 999 },
        ],
    )
}

#[test]
fn weapon_lookups_by_type_and_rarity() {
    let a = assets();
    assert_eq!(a.count(), 4);
    assert!(a.contains("wpn_b"));
    assert!(!a.contains("wpn_z"));
    assert_eq!(a.get("wpn_c").unwrap().weapon_type, 2);
    let t1: Vec<&str> = a.get_by_type(1).iter().map(|w| w.weapon_id.as_str()).collect();
    assert_eq!(t1, vec!["wpn_a", "wpn_b", "wpn_d"]);
    assert_eq!(a.get_by_rarity(6).len(), 3);
    assert_eq!(a.get_signature_weapons_for_type(1).len(), 2);
    assert_eq!(a.get_premium_weapons_for_type(1).len(), 3);
    assert_eq!(a.get_best_for_char(1).unwrap().weapon_id, "wpn_d");
    assert!(a.get_best_for_char(7).is_none());
    assert_eq!(a.count_by_type(), vec![(1, 3), (2, 1)]);
}

#[test]
fn weapon_breakthrough_caps() {
    let a = assets();
    assert_eq!(a.get_max_breakthrough_lv("wpn_b"), 3);
    assert_eq!(a.get_max_breakthrough_lv("nope"), 0);
    assert_eq!(a.get_effective_max_lv("wpn_b", 0), 20);
    assert_eq!(a.get_effective_max_lv("wpn_b", 2), 60);
    assert_eq!(a.get_effective_max_lv("wpn_b", 3), 90);
    assert_eq!(a.get_effective_max_lv("nope", 0), 1);
    assert_eq!(a.get_breakthrough_required_level("wpn_b", 2), Some(40));
    assert_eq!(a.get_breakthrough_required_level("wpn_b", 9), None);
}

#[test]
fn weapon_level_from_exp_follows_curve_and_cap() {
    let a = assets();
    assert_eq!(a.weapon_level_from_exp("wpn_b", 0), 1);
    assert_eq!(a.weapon_level_from_exp("wpn_b", 299), 2);
    assert_eq!(a.weapon_level_from_exp("wpn_b", 300), 3);
    assert_eq!(a.weapon_level_from_exp("wpn_b", 10_000), 4);
    assert_eq!(a.weapon_level_from_exp("wpn_a", 10_000), 3);
    assert_eq!(a.weapon_level_from_exp("nope", 10_000), 1);
}

#[test]
fn weapon_exp_items_skip_rows_without_id() {
    let a = assets();
    assert_eq!(a.weapon_exp_for_item("item_exp_s"), 200);
    assert_eq!(a.weapon_exp_for_item(""), 0);
    assert_eq!(a.weapon_exp_for_item("other"), 0);
}

fn raw(id: &str, tab: u32, showing: u32, s1: i32, s2: i32) -> RawItemEntry {
    RawItemEntry {
        id: id.to_string(),
        item_type: 0,
        name: I18nText { id: String::new(), text: String::new() },
        desc: I18nText { id: String::new(), text: String::new() },
        rarity: 1,
        sort_id1: s1,
        sort_id2: s2,
        icon_id: String::new(),
        model_key: String::new(),
        max_backpack_stack_count: -1,
        max_stack_count: -1,
        backpack_can_discard: true,
        price: 0,
        obtain_way_ids: vec![],
        valuable_tab_type: tab,
        showing_type: showing,
    }
}

#[test]
fn item_config_from_raw_row() {
    let c = ItemConfig::from(raw("gem_1", 2, 16, 0, 0));
    assert_eq!(c.depot_type, ItemDepotType::WeaponGem);
    assert_eq!(c.kind, ItemKind::WeaponGem { craft_slot: CraftShowingType::WeaponGemSpc });
    assert!(c.is_instanced());
    let u = ItemConfig::from(raw("odd", 42, 99, 0, 0));
    assert_eq!(u.depot_type, ItemDepotType::Invalid);
    assert_eq!(u.kind, ItemKind::Unknown { raw_tab_type: 42 });
    assert!(!u.is_instanced() && !u.is_stackable());
    assert!(ItemKind::Factory.is_stackable());
    assert_eq!(ItemKind::Equip { slot: CraftShowingType::EquipHead }.depot_type(), ItemDepotType::Equip);
}

#[test]
fn item_ids_by_depot_are_sorted_by_sort_ids() {
    let a = ItemAssets::from_raw(
        vec![raw("f_c", 6, 0, 3, 0), raw("f_a", 6, 0, 1, 5), raw("w_1", 1, 0, 0, 0), raw("f_b", 6, 0, 1, 2)],
        vec![("exp_card".to_string(), 500)],
    );
    assert_eq!(a.count(), 4);
    assert_eq!(a.ids_by_depot(ItemDepotType::Factory), &["f_b", "f_a", "f_c"]);
    assert_eq!(a.count_by_depot(ItemDepotType::Factory), 3);
    assert_eq!(a.count_by_depot(ItemDepotType::Equip), 0);
    let w: Vec<&str> = a.iter_by_depot(ItemDepotType::Weapon).iter().map(|c| c.id.as_str()).collect();
    assert_eq!(w, vec!["w_1"]);
    assert!(a.contains("f_a"));
    assert_eq!(a.get("w_1").unwrap().depot_type, ItemDepotType::Weapon);
    assert_eq!(a.char_exp_for_item("exp_card"), 500);
    assert_eq!(a.char_exp_for_item("f_a"), 0);
}

#[test]
fn rewards_lookup() {
    let r = RewardAssets::new(vec![(
        "rw_1".to_string(),
        RewardEntry { reward_id: "rw_1".to_string(), item_bundles: vec![ItemBundle { id: "gold".to_string(), count: 10 }] },
    )]);
    assert_eq!(r.len(), 1);
    assert!(!r.is_empty());
    assert_eq!(r.get("rw_1").unwrap().item_bundles[0].count, 10);
    assert!(r.get("rw_2").is_none());
    assert!(RewardAssets::default().is_empty());
}

#[test]
fn factory_region_level_lookup() {
    let item = |level: u32| RegionItem {
        id: format!("r{level}"),
        level,
        pos_x: 0,
        pos_y: 0,
        range_w: 1,
        range_h: 1,
        icon: String::new(),
    };
    let f = FRegionAssets::new(vec![("reg".to_string(), RegionData { list: vec![item(1), item(2)] })]);
    assert_eq!(f.get("reg", 2).unwrap().id, "r2");
    assert!(f.get("reg", 3).is_none());
    assert!(f.get("other", 1).is_none());
}

#[test]
fn mission_kind_from_id() {
    assert!(matches!(MissionKind::from_mission_id("mission_mai_e0m1"), MissionKind::Main));
    assert!(matches!(MissionKind::from_mission_id("mission_gpl"), MissionKind::Gameplay));
    match MissionKind::from_mission_id("mission_xyz_1") {
        MissionKind::Unknown(s) => assert_eq!(s, "xyz"),
        _ => panic!(),
    }
    match MissionKind::from_mission_id("nounderscore") {
        MissionKind::Unknown(s) => assert_eq!(s, ""),
        _ => panic!(),
    }
}

#[test]
fn quest_key_parsing() {
    let (m, q) = parse_quest_key("mission_mai_e0m1_q#2_obj_1_description").unwrap();
    assert_eq!(m, "mission_mai_e0m1");
    assert_eq!(q.quest_id, "mission_mai_e0m1_q#2");
    assert_eq!(q.ordinal_key, "2");
    assert_eq!(q.numeric_ordinal, Some(2));
    assert_eq!(q.objective_keys, vec!["2".to_string()]);
    let (_, q) = parse_quest_key("mission_x_q#a_obj_b_description").unwrap();
    assert_eq!(q.numeric_ordinal, None);
    assert!(parse_quest_key("mission_x_q#2_description").is_none());
    assert!(parse_quest_key("other_x_q#2_obj_1_description").is_none());
}

#[test]
fn mission_catalog_from_keys() {
    let keys: Vec<String> = [
        "mission_mai_e0m1_name",
        "mission_mai_e0m1_q#10_obj_1_description",
        "mission_mai_e0m1_q#2_obj_1_description",
        "mission_mai_e0m1_q#2_obj_2_description",
        "mission_sid_x_q#1_obj_1_description",
        "mission_fac_y_description",
        "mission_bad_q#_description",
        "notmission_name",
    ]
    .iter()
    .map(|s| s.to_string())
    .collect();
    let a = MissionAssets::from_keys(&keys);
    assert_eq!(a.missions().len(), 3);
    let m = a.get("mission_mai_e0m1").unwrap();
    assert_eq!(m.name_key, "mission_mai_e0m1_name");
    assert_eq!(m.description_key, None);
    let qids: Vec<&str> = m.quests.iter().map(|q| q.quest_id.as_str()).collect();
    assert_eq!(qids, vec!["mission_mai_e0m1_q#2", "mission_mai_e0m1_q#10"]);
    let s = a.get("mission_sid_x").unwrap();
    assert_eq!(s.description_key.as_deref(), Some("mission_sid_x_description"));
    assert!(matches!(s.kind, MissionKind::Side));
    let f = a.get("mission_fac_y").unwrap();
    assert_eq!(f.description_key.as_deref(), Some("mission_fac_y_description"));
    assert!(f.quests.is_empty());
    assert!(a.get("mission_bad").is_none());
    assert!(!a.is_empty());
    assert!(MissionAssets::default().is_empty());
}

#[test]
fn mission_keys_are_collected_once() {
    let table = vec![
        ("mission_a_name".to_string(), None),
        ("text_1".to_string(), Some("mission_b_name".to_string())),
        ("text_2".to_string(), Some("other".to_string())),
        ("mission_a_name".to_string(), Some("mission_a_name".to_string())),
    ];
    let i18n = vec!["mission_c_name".to_string(), "x".to_string(), "mission_b_name".to_string()];
    let keys = mission_keys(&table, &i18n);
    assert_eq!(keys, vec!["mission_a_name", "mission_b_name", "mission_c_name"]);
}

#[test]
fn depot_counts_add_up_to_the_item_count() {
    let a = ItemAssets::from_raw(
        vec![raw("f_c", 6, 0, 3, 0), raw("f_a", 6, 0, 1, 5), raw("w_1", 1, 0, 0, 0), raw("f_b", 6, 0, 1, 2), raw("u", 42, 0, 0, 0)],
        vec![],
    );
    let depots = [
        ItemDepotType::Invalid,
        ItemDepotType::Weapon,
        ItemDepotType::WeaponGem,
        ItemDepotType::Equip,
        ItemDepotType::SpecialItem,
        ItemDepotType::MissionItem,
        ItemDepotType::Factory,
    ];
    let total: usize = depots.iter().map(|d| a.count_by_depot(*d)).sum();
    assert_eq!(total, a.count());
    for d in depots {
        assert_eq!(a.count_by_depot(d), a.ids_by_depot(d).len());
    }
    for (id, c) in a.iter() {
        assert_eq!(a.get(id).unwrap().id, *id);
        assert!(a.contains(&c.id));
    }
}

#[test]
fn weapon_type_counts_add_up_to_the_weapon_count() {
    let a = assets();
    let total: usize = a.count_by_type().iter().map(|(_, n)| *n).sum();
    assert_eq!(total, a.count());
}

fn ids(ws: &[&Weapon]) -> Vec<String> {
    ws.iter().map(|w| w.weapon_id.clone()).collect()
}

#[test]
fn weapon_filters_by_rarity_and_type_agree() {
    let a = assets();
    for rarity in [5, 6, 7] {
        for t in [1, 2, 3] {
            let both = ids(&a.get_by_rarity_and_type(rarity, t));
            let by_rarity: Vec<&Weapon> = a.get_by_rarity(rarity).into_iter().filter(|w| w.weapon_type == t).collect();
            let by_type: Vec<&Weapon> = a.get_by_type(t).into_iter().filter(|w| w.rarity == rarity).collect();
            assert_eq!(both, ids(&by_rarity));
            assert_eq!(both, ids(&by_type));
        }
    }
    assert_eq!(ids(&a.get_by_rarity_and_type(6, 1)), vec!["wpn_b", "wpn_d"]);
}

#[test]
fn premium_weapons_are_the_type_weapons_of_rarity_five_or_more() {
    let a = assets();
    for t in [1, 2, 3] {
        let premium = ids(&a.get_premium_weapons_for_type(t));
        let of_type: Vec<&Weapon> = a.get_by_type(t).into_iter().filter(|w| w.rarity >= 5).collect();
        assert_eq!(premium, ids(&of_type));
        let signature = ids(&a.get_signature_weapons_for_type(t));
        let six: Vec<&Weapon> = a.get_premium_weapons_for_type(t).into_iter().filter(|w| w.rarity == 6).collect();
        assert_eq!(signature, ids(&six));
    }
}

#[test]
fn type_counts_match_the_weapons_of_each_type() {
    let a = assets();
    let counts = a.count_by_type();
    for (t, n) in &counts {
        assert_eq!(*n, a.get_by_type(*t).len());
    }
    assert!(a.get_by_type(3).is_empty());
    assert!(counts.iter().all(|(t, _)| *t != 3));
}

#[test]
fn catalog_quest_ids_extend_their_mission_id() {
    let keys: Vec<String> = [
        "mission_mai_e0m1_q#10_obj_1_description",
        "mission_mai_e0m1_q#2_obj_1_description",
        "mission_sid_x_q#1_obj_1_description",
        "mission_sid_x_q#1_obj_2_description",
    ]
    .iter()
    .map(|s| s.to_string())
    .collect();
    let a = MissionAssets::from_keys(&keys);
    assert_eq!(a.missions().len(), 2);
    for m in a.missions() {
        assert!(!m.quests.is_empty());
        for q in &m.quests {
            assert!(q.quest_id.starts_with(&format!("{}_q#", m.mission_id)));
        }
    }
}

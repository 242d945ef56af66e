use perlica::logic::enums::{ParamRealType, ParamValueType};
use perlica::logic::scene::{
    is_always_resident_interactive, lv_property_to_dynamic_param, lv_props_to_map, EntityDestroyReason, LvProperty,
    ParamEntry, RevivalMode, SceneLoadingState, SelfInfoReason,
};

fn bit_entries(values: &[i64]) -> Vec<ParamEntry> {
    values.iter().map(|v| ParamEntry { bit64: *v, string: String::new() }).collect()
}

fn string_entries(values: &[&str]) -> Vec<ParamEntry> {
    values.iter().map(|v| ParamEntry { bit64: 0, string: v.to_string() }).collect()
}

fn prop(type_code: i64, entries: Vec<ParamEntry>) -> LvProperty {
    LvProperty { key: "test".to_string(), type_code, entries }
}

#[test]
fn resident_teleport() {
    assert!(is_always_resident_interactive("int_teleport_zone_001", 0));
}

#[test]
fn resident_campfire() {
    assert!(is_always_resident_interactive("int_campfire_01", 0));
}

#[test]
fn resident_save_point() {
    assert!(is_always_resident_interactive("int_save_point_02", 0));
}

#[test]
fn resident_checkpoint() {
    assert!(is_always_resident_interactive("int_checkpoint_main", 0));
}

#[test]
fn resident_repatriate() {
    assert!(is_always_resident_interactive("int_repatriate_a", 0));
}

#[test]
fn resident_barrierwall() {
    assert!(is_always_resident_interactive("int_barrierwall_adv", 0));
}

#[test]
fn resident_blockage() {
    assert!(is_always_resident_interactive("int_blockage_path", 0));
}

#[test]
fn resident_levelgate() {
    assert!(is_always_resident_interactive("int_levelgate_01", 0));
}

#[test]
fn resident_dungeon_entry() {
    assert!(is_always_resident_interactive("int_dungeon_entry", 0));
}

#[test]
fn resident_tp_substring() {
    assert!(is_always_resident_interactive("obj_tp_zone", 0));
}

#[test]
fn resident_edoor() {
    assert!(is_always_resident_interactive("int_edoor_main", 0));
}

#[test]
fn non_resident_regular_interactive() {
    assert!(!is_always_resident_interactive("int_loot_chest_01", 0));
}

#[test]
fn non_resident_random_string() {
    assert!(!is_always_resident_interactive("enemy_spawn_01", 0));
}

#[test]
fn resident_case_insensitive() {
    assert!(is_always_resident_interactive("INT_TELEPORT_ZONE", 0));
    assert!(is_always_resident_interactive("Int_Campfire_01", 0));
}

#[test]
fn resident_by_entity_type() {
    assert!(!is_always_resident_interactive("some_template", 32));
}

#[test]
fn scene_loading_state_default_is_idle() {
    assert_eq!(SceneLoadingState::default(), SceneLoadingState::Idle);
}

#[test]
fn revival_mode_default() {
    assert_eq!(RevivalMode::default(), RevivalMode::Default);
}

#[test]
fn self_info_reason_values() {
    assert_eq!(SelfInfoReason::EnterScene.as_i32(), 0);
    assert_eq!(SelfInfoReason::ChangeTeam.as_i32(), 3);
}

#[test]
fn entity_destroy_reason_values() {
    assert_eq!(EntityDestroyReason::Immediately.as_i32(), 0);
    assert_eq!(EntityDestroyReason::Dead.as_i32(), 1);
}

#[test]
fn self_info_reason_all_discriminants() {
    assert_eq!(SelfInfoReason::EnterScene.as_i32(), 0);
    assert_eq!(SelfInfoReason::ReviveDead.as_i32(), 1);
    assert_eq!(SelfInfoReason::ReviveRest.as_i32(), 2);
    assert_eq!(SelfInfoReason::ChangeTeam.as_i32(), 3);
    assert_eq!(SelfInfoReason::ReviveByItem.as_i32(), 4);
    assert_eq!(SelfInfoReason::ResetDungeon.as_i32(), 5);
}

#[test]
fn revival_mode_all_variants() {
    assert_eq!(RevivalMode::Default.as_i32(), 0);
    assert_eq!(RevivalMode::RepatriatePoint.as_i32(), 1);
    assert_eq!(RevivalMode::CheckPoint.as_i32(), 2);
    assert_eq!(RevivalMode::default(), RevivalMode::Default);
}

#[test]
fn scene_loading_state_variants() {
    assert_ne!(SceneLoadingState::Idle, SceneLoadingState::Loading);
    assert_ne!(SceneLoadingState::Loading, SceneLoadingState::Active);
    assert_ne!(SceneLoadingState::Idle, SceneLoadingState::Active);
    assert_eq!(SceneLoadingState::default(), SceneLoadingState::Idle);
}

#[test]
fn resident_empty_pattern_is_ignored() {
    assert!(!is_always_resident_interactive("some_random_thing", 0));
}

#[test]
fn resident_save_group() {
    assert!(is_always_resident_interactive("int_save_group_01", 0));
}

#[test]
fn resident_locked_door() {
    assert!(is_always_resident_interactive("int_locked_door_north", 0));
}

#[test]
fn resident_pattern_anywhere_in_name() {
    assert!(is_always_resident_interactive("xx_CAMPFIRE", 7));
    assert!(!is_always_resident_interactive("", 0));
    assert!(!is_always_resident_interactive("t_p", 0));
}

#[test]
fn lv_property_invalid_type() {
    let result = lv_property_to_dynamic_param(&prop(0, Vec::new()));
    assert_eq!(result.value_type, ParamValueType::Invalid.as_i32());
    assert_eq!(result.real_type, 0);
}

#[test]
fn lv_property_enum_type() {
    let result = lv_property_to_dynamic_param(&prop(35, Vec::new()));
    assert_eq!(result.value_type, ParamValueType::Invalid.as_i32());
    assert_eq!(result.real_type, 35);
}

#[test]
fn lv_property_bool_type() {
    let result = lv_property_to_dynamic_param(&prop(1, bit_entries(&[1, 0, 1])));
    assert_eq!(result.value_type, ParamRealType::Bool.as_i32());
    assert_eq!(result.value_bool_list, vec![true, false, true]);
}

#[test]
fn lv_property_bool_list_type() {
    let result = lv_property_to_dynamic_param(&prop(2, bit_entries(&[0, 1])));
    assert_eq!(result.value_type, ParamRealType::BoolList.as_i32());
    assert_eq!(result.value_bool_list, vec![false, true]);
}

#[test]
fn lv_property_int_type() {
    let result = lv_property_to_dynamic_param(&prop(3, bit_entries(&[42, -10])));
    assert_eq!(result.value_type, ParamValueType::Int.as_i32());
    assert_eq!(result.value_int_list, vec![42, -10]);
}

#[test]
fn lv_property_int_list_type() {
    let result = lv_property_to_dynamic_param(&prop(4, bit_entries(&[1, 2, 3])));
    assert_eq!(result.value_type, ParamValueType::IntList.as_i32());
    assert_eq!(result.value_int_list, vec![1, 2, 3]);
}

#[test]
fn lv_property_uint_type_mapped_to_int() {
    let result = lv_property_to_dynamic_param(&prop(17, bit_entries(&[999])));
    assert_eq!(result.value_type, ParamValueType::Int.as_i32());
    assert_eq!(result.value_int_list, vec![999]);
}

#[test]
fn lv_property_float_type_positive() {
    let bits = 3.14f32.to_bits() as i64;
    let result = lv_property_to_dynamic_param(&prop(5, bit_entries(&[bits])));
    assert_eq!(result.value_type, ParamValueType::Float.as_i32());
    assert!((f32::from_bits(result.value_float_bits[0]) - 3.14f32).abs() < 0.01);
}

#[test]
fn lv_property_float_type_negative_fallback_to_int() {
    let result = lv_property_to_dynamic_param(&prop(5, bit_entries(&[-1])));
    assert_eq!(result.value_type, ParamValueType::Int.as_i32());
    assert_eq!(result.value_int_list, vec![-1]);
}

#[test]
fn lv_property_float_list_type() {
    let val1 = 1.5f32.to_bits() as i64;
    let val2 = 2.5f32.to_bits() as i64;
    let result = lv_property_to_dynamic_param(&prop(6, bit_entries(&[val1, val2])));
    assert_eq!(result.value_type, ParamValueType::FloatList.as_i32());
    assert!((f32::from_bits(result.value_float_bits[0]) - 1.5f32).abs() < 0.01);
    assert!((f32::from_bits(result.value_float_bits[1]) - 2.5f32).abs() < 0.01);
}

#[test]
fn lv_property_string_type() {
    let result = lv_property_to_dynamic_param(&prop(7, string_entries(&["hello", "world"])));
    assert_eq!(result.value_type, ParamValueType::String.as_i32());
    assert_eq!(result.value_string_list, vec!["hello", "world"]);
}

#[test]
fn lv_property_string_list_type() {
    let result = lv_property_to_dynamic_param(&prop(8, string_entries(&["a", "b"])));
    assert_eq!(result.value_type, ParamValueType::StringList.as_i32());
    assert_eq!(result.value_string_list, vec!["a", "b"]);
}

#[test]
fn lv_property_path_type_maps_to_string() {
    let result = lv_property_to_dynamic_param(&prop(9, string_entries(&["/path/to/file"])));
    assert_eq!(result.value_type, ParamValueType::String.as_i32());
    assert_eq!(result.value_string_list, vec!["/path/to/file"]);
}

#[test]
fn lv_property_path_list_type_maps_to_string_list() {
    let result = lv_property_to_dynamic_param(&prop(10, string_entries(&["/a", "/b"])));
    assert_eq!(result.value_type, ParamValueType::StringList.as_i32());
}

#[test]
fn lv_property_vector3_type() {
    let x_bits = 1.0f32.to_bits() as i64;
    let y_bits = 2.0f32.to_bits() as i64;
    let z_bits = 3.0f32.to_bits() as i64;
    let result = lv_property_to_dynamic_param(&prop(11, bit_entries(&[x_bits, y_bits, z_bits])));
    assert_eq!(result.value_type, ParamValueType::FloatList.as_i32());
    assert_eq!(result.value_float_bits.len(), 3);
}

#[test]
fn lv_property_entity_ptr_maps_to_int() {
    let result = lv_property_to_dynamic_param(&prop(13, bit_entries(&[42])));
    assert_eq!(result.value_type, ParamValueType::Int.as_i32());
    assert_eq!(result.value_int_list, vec![42]);
}

#[test]
fn lv_property_tag_type_maps_to_string() {
    let result = lv_property_to_dynamic_param(&prop(15, string_entries(&["some_tag"])));
    assert_eq!(result.value_type, ParamValueType::String.as_i32());
    assert_eq!(result.value_string_list, vec!["some_tag"]);
}

#[test]
fn lv_property_missing_type_defaults_to_invalid() {
    // a property without a type code reads as code 0
    let result = lv_property_to_dynamic_param(&prop(0, Vec::new()));
    assert_eq!(result.value_type, ParamValueType::Invalid.as_i32());
    assert_eq!(result.real_type, 0);
}

#[test]
fn lv_property_missing_value_array_defaults_empty() {
    let result = lv_property_to_dynamic_param(&prop(3, Vec::new()));
    assert_eq!(result.value_type, ParamValueType::Int.as_i32());
    assert!(result.value_int_list.is_empty());
}

#[test]
fn lv_props_to_map_converts_multiple() {
    let props = vec![
        LvProperty { key: "int_prop".to_string(), type_code: 3, entries: bit_entries(&[10]) },
        LvProperty { key: "bool_prop".to_string(), type_code: 1, entries: bit_entries(&[1]) },
    ];
    let map = lv_props_to_map(&props);
    assert_eq!(map.len(), 2);
    assert!(map.contains_key("int_prop"));
    assert!(map.contains_key("bool_prop"));
    assert_eq!(map.get("int_prop").unwrap().value_int_list, vec![10]);
    assert_eq!(map.get("bool_prop").unwrap().value_bool_list, vec![true]);
}

#[test]
fn lv_props_to_map_empty() {
    let map = lv_props_to_map(&[]);
    assert!(map.is_empty());
}

#[test]
fn lv_props_to_map_later_key_wins() {
    let props = vec![
        LvProperty { key: "k".to_string(), type_code: 3, entries: bit_entries(&[1]) },
        LvProperty { key: "k".to_string(), type_code: 3, entries: bit_entries(&[2]) },
    ];
    let map = lv_props_to_map(&props);
    assert_eq!(map.len(), 1);
    assert_eq!(map.get("k").unwrap().value_int_list, vec![2]);
}

#[test]
fn lv_property_type_code_wraps_to_32_bits() {
    // the code is read as a 32-bit integer: 2^32 + 3 reads as 3 (Int)
    let result = lv_property_to_dynamic_param(&prop((1i64 << 32) + 3, bit_entries(&[7])));
    assert_eq!(result.real_type, 3);
    assert_eq!(result.value_int_list, vec![7]);
}

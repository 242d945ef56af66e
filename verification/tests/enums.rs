use perlica::logic::enums::{AttributeType, ParamRealType, ParamValueType, SystemType, UnlockSystemType};

#[test]
fn param_real_type_from_known_values() {
    assert_eq!(ParamRealType::from(0), ParamRealType::Invalid);
    assert_eq!(ParamRealType::from(1), ParamRealType::Bool);
    assert_eq!(ParamRealType::from(5), ParamRealType::Float);
    assert_eq!(ParamRealType::from(7), ParamRealType::String);
    assert_eq!(ParamRealType::from(11), ParamRealType::Vector3);
    assert_eq!(ParamRealType::from(35), ParamRealType::ENum);
}

#[test]
fn param_real_type_from_unknown_returns_invalid() {
    assert_eq!(ParamRealType::from(999), ParamRealType::Invalid);
    assert_eq!(ParamRealType::from(-1), ParamRealType::Invalid);
}

#[test]
fn param_real_type_repr_values() {
    assert_eq!(ParamRealType::Invalid.as_i32(), 0);
    assert_eq!(ParamRealType::Bool.as_i32(), 1);
    assert_eq!(ParamRealType::Float.as_i32(), 5);
    assert_eq!(ParamRealType::ENum.as_i32(), 35);
}

#[test]
fn param_value_type_from_known_values() {
    assert_eq!(ParamValueType::from(0), ParamValueType::Invalid);
    assert_eq!(ParamValueType::from(3), ParamValueType::Int);
    assert_eq!(ParamValueType::from(5), ParamValueType::Float);
    assert_eq!(ParamValueType::from(7), ParamValueType::String);
    assert_eq!(ParamValueType::from(8), ParamValueType::StringList);
}

#[test]
fn param_value_type_from_unknown_returns_invalid() {
    assert_eq!(ParamValueType::from(100), ParamValueType::Invalid);
}

#[test]
fn param_value_type_repr_values() {
    assert_eq!(ParamValueType::Invalid.as_i32(), 0);
    assert_eq!(ParamValueType::StringList.as_i32(), 8);
}

#[test]
fn unlock_system_type_default_unlocked_contains_core_systems() {
    let defaults = UnlockSystemType::default_unlocked();
    assert!(defaults.contains(&UnlockSystemType::WorldMap.as_i32()));
    assert!(defaults.contains(&UnlockSystemType::Inventory.as_i32()));
    assert!(defaults.contains(&UnlockSystemType::Mail.as_i32()));
    assert!(defaults.contains(&UnlockSystemType::Weapon.as_i32()));
    assert!(defaults.contains(&UnlockSystemType::NormalAttack.as_i32()));
}

#[test]
fn unlock_system_type_default_unlocked_excludes_factory_systems() {
    let defaults = UnlockSystemType::default_unlocked();
    assert!(!defaults.contains(&UnlockSystemType::FacBuildingPin.as_i32()));
    assert!(!defaults.contains(&UnlockSystemType::FacMode.as_i32()));
    assert!(!defaults.contains(&UnlockSystemType::FacConveyor.as_i32()));
}

#[test]
fn unlock_system_type_all_includes_everything() {
    let all = UnlockSystemType::all();
    let defaults = UnlockSystemType::default_unlocked();
    for id in &defaults {
        assert!(all.contains(id));
    }
    assert!(all.contains(&UnlockSystemType::FacBuildingPin.as_i32()));
    assert!(all.contains(&UnlockSystemType::Gacha.as_i32()));
    assert!(!defaults.contains(&UnlockSystemType::Unset.as_i32()));
    assert!(!all.contains(&UnlockSystemType::Unset.as_i32()));
}

#[test]
fn system_type_repr_values() {
    assert_eq!(SystemType::Depot.as_i32(), 0);
    assert_eq!(SystemType::Equip.as_i32(), 7);
    assert_eq!(SystemType::FacBus.as_i32(), 101);
    assert_eq!(SystemType::WorldBuildOnPoleBase.as_i32(), 1000);
}

#[test]
fn attribute_type_repr_values() {
    assert_eq!(AttributeType::Level.as_i32(), 0);
    assert_eq!(AttributeType::Hp.as_i32(), 1);
    assert_eq!(AttributeType::Atk.as_i32(), 2);
    assert_eq!(AttributeType::Def.as_i32(), 3);
}

#[test]
fn param_real_type_round_trips_through_code() {
    for code in -3..40 {
        let t = ParamRealType::from(code);
        if t != ParamRealType::Invalid {
            assert_eq!(t.as_i32(), code);
            assert_eq!(ParamRealType::from(t.as_i32()), t);
        }
    }
}

#[test]
fn param_value_type_round_trips_through_code() {
    for code in -3..12 {
        let t = ParamValueType::from(code);
        if t != ParamValueType::Invalid {
            assert_eq!(ParamValueType::from(t.as_i32()), t);
        }
    }
}

#[test]
fn default_unlocked_is_within_all() {
    let all = UnlockSystemType::all();
    for id in UnlockSystemType::default_unlocked() {
        assert!(all.contains(&id));
    }
}

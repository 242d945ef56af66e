use perlica::logic::error::{LogicError, Result};
use perlica::logic::item::{EquipInstId, GemInstId, WeaponInstId};
use perlica::config::item::ItemDepotType;

#[test]
fn not_found_display() {
    let err = LogicError::NotFound("test item".to_string());
    assert_eq!(err.message(), "test item");
}

#[test]
fn invalid_operation_display() {
    let err = LogicError::InvalidOperation("bad move".to_string());
    assert_eq!(err.message(), "bad move");
}

#[test]
fn insufficient_display() {
    let err = LogicError::Insufficient { item_id: "gold".to_string(), have: 10, need: 50 };
    let msg = err.message();
    assert!(msg.contains("gold"));
    assert!(msg.contains("10"));
    assert!(msg.contains("50"));
}

#[test]
fn weapon_not_found_display() {
    let err = LogicError::WeaponNotFound(WeaponInstId::new(42));
    assert!(err.message().contains("42"));
}

#[test]
fn weapon_equipped_display() {
    let err = LogicError::WeaponEquipped(WeaponInstId::new(5));
    let msg = err.message();
    assert!(msg.contains("5"));
    assert!(msg.contains("equipped"));
}

#[test]
fn weapon_already_equipped_display() {
    let err = LogicError::WeaponAlreadyEquipped(WeaponInstId::new(7), 100);
    let msg = err.message();
    assert!(msg.contains("7"));
    assert!(msg.contains("100"));
}

#[test]
fn weapon_locked_display() {
    let err = LogicError::WeaponLocked(WeaponInstId::new(3));
    let msg = err.message();
    assert!(msg.contains("3"));
    assert!(msg.contains("locked"));
}

#[test]
fn weapon_fodder_self_display() {
    let err = LogicError::WeaponFodderSelf(WeaponInstId::new(1));
    assert!(err.message().contains("own fodder"));
}

#[test]
fn weapon_max_breakthrough_display() {
    let err = LogicError::WeaponMaxBreakthrough(WeaponInstId::new(10));
    assert!(err.message().contains("max breakthrough"));
}

#[test]
fn weapon_breakthrough_level_too_low_display() {
    let err = LogicError::WeaponBreakthroughLevelTooLow { id: WeaponInstId::new(10), current: 20, required: 40 };
    let msg = err.message();
    assert!(msg.contains("20"));
    assert!(msg.contains("40"));
}

#[test]
fn gem_not_found_display() {
    let err = LogicError::GemNotFound(GemInstId::new(99));
    assert!(err.message().contains("99"));
}

#[test]
fn gem_socketed_display() {
    let err = LogicError::GemSocketed(GemInstId::new(5));
    assert!(err.message().contains("socketed"));
}

#[test]
fn equip_not_found_display() {
    let err = LogicError::EquipNotFound(EquipInstId::new(33));
    assert!(err.message().contains("33"));
}

#[test]
fn equip_equipped_display() {
    let err = LogicError::EquipEquipped(EquipInstId::new(2));
    let msg = err.message();
    assert!(msg.contains("2"));
    assert!(msg.contains("equipped"));
}

#[test]
fn weapon_refine_type_mismatch_display() {
    let err = LogicError::WeaponRefineTypeMismatch;
    assert!(err.message().contains("template"));
}

#[test]
fn result_ok() {
    let r: Result<i32> = Ok(42);
    assert_eq!(r.unwrap(), 42);
}

#[test]
fn result_err() {
    let r: Result<i32> = Err(LogicError::NotFound("oops".to_string()));
    assert!(r.is_err());
}

#[test]
fn exact_messages() {
    assert_eq!(
        LogicError::Insufficient { item_id: "gold".to_string(), have: 10, need: 50 }.message(),
        "Insufficient gold: have 10, need 50"
    );
    assert_eq!(LogicError::WeaponNotFound(WeaponInstId::new(42)).message(), "Weapon 42 not found");
    assert_eq!(
        LogicError::WeaponAlreadyEquipped(WeaponInstId::new(7), 100).message(),
        "Weapon 7 is already equipped to character 100"
    );
    assert_eq!(
        LogicError::WeaponBreakthroughLevelTooLow { id: WeaponInstId::new(10), current: 20, required: 40 }.message(),
        "Weapon 10 level 20 is below required 40 for next breakthrough"
    );
    assert_eq!(LogicError::DepotInstanced(ItemDepotType::Weapon).message(), "Depot Weapon is instanced, expected stackable");
    assert_eq!(LogicError::EquipAlreadyEquipped(EquipInstId::new(0), 18446744073709551615).message(),
        "Equip piece 0 is already equipped to character 18446744073709551615");
}

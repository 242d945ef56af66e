use perlica::config::item::CraftShowingType;
use perlica::logic::error::{LogicError, Result};
use perlica::logic::item::{
    EquipDepot, EquipInstId, GemDepot, GemInstId, WeaponDepot, WeaponInstId, WeaponInstance,
};
use perlica::logic::traits::container::{
    Container, DepotKind, IdAllocator, KeyedContainer, KeyedContainerExt, LockableContainerExt,
};
use perlica::logic::traits::id::{AsU64, InstanceId};
use perlica::logic::mail::StoredMail;
use perlica::logic::traits::item::{Attachable, Identifiable, Lockable, NewFlaggable, Templated};
use perlica::logic::traits::util::count_by_template;

#[test]
fn weapon_depot_get_or_not_found_missing() {
    let depot = WeaponDepot::new();
    let result: Result<&_> = depot.get_or_not_found(WeaponInstId::new(999), "weapon");
    assert!(result.is_err());
    if let Err(LogicError::NotFound(label)) = result {
        assert_eq!(label, "weapon");
    } else {
        panic!("Expected NotFound error");
    }
}

#[test]
fn weapon_depot_get_or_not_found_present() {
    let mut depot = WeaponDepot::new();
    let id = depot.add_weapon("wpn_test".to_string(), 0);
    let result = depot.get_or_not_found(id, "weapon");
    assert!(result.is_ok());
    assert_eq!(result.unwrap().template_id, "wpn_test");
}

#[test]
fn gem_depot_get_or_not_found_missing() {
    let depot = GemDepot::new();
    let result: Result<&_> = depot.get_or_not_found(GemInstId::new(999), "gem");
    assert!(result.is_err());
}

#[test]
fn equip_depot_get_or_not_found_missing() {
    let depot = EquipDepot::new();
    let result: Result<&_> = depot.get_or_not_found(EquipInstId::new(999), "equip");
    assert!(result.is_err());
}

#[test]
fn weapon_depot_get_mut_or_not_found_missing() {
    let mut depot = WeaponDepot::new();
    let result: Result<&mut _> = depot.get_mut_or_not_found(WeaponInstId::new(999), "weapon");
    assert!(result.is_err());
}

#[test]
fn weapon_depot_get_mut_or_not_found_present() {
    let mut depot = WeaponDepot::new();
    let id = depot.add_weapon("wpn_test".to_string(), 0);
    let result = depot.get_mut_or_not_found(id, "weapon");
    assert!(result.is_ok());
}

#[test]
fn weapon_depot_locked_count_empty() {
    let depot = WeaponDepot::new();
    assert_eq!(depot.locked_count(), 0);
}

#[test]
fn weapon_depot_locked_count_with_weapons() {
    let mut depot = WeaponDepot::new();
    let id1 = depot.add_weapon("wpn_a".to_string(), 0);
    let id2 = depot.add_weapon("wpn_b".to_string(), 0);
    assert_eq!(depot.locked_count(), 0);
    depot.set_lock(id1, true).unwrap();
    assert_eq!(depot.locked_count(), 1);
    depot.set_lock(id2, true).unwrap();
    assert_eq!(depot.locked_count(), 2);
    depot.set_lock(id1, false).unwrap();
    assert_eq!(depot.locked_count(), 1);
}

#[test]
fn gem_depot_locked_count_empty() {
    let depot = GemDepot::new();
    assert_eq!(depot.locked_count(), 0);
}

#[test]
fn gem_depot_locked_count_with_gems() {
    let mut depot = GemDepot::new();
    let id = depot.add_gem("gem_a".to_string(), CraftShowingType::EquipHead, 0);
    assert_eq!(depot.locked_count(), 0);
    depot.set_lock(id, true).unwrap();
    assert_eq!(depot.locked_count(), 1);
}

#[test]
fn equip_depot_locked_count_empty() {
    let depot = EquipDepot::new();
    assert_eq!(depot.locked_count(), 0);
}

#[test]
fn instance_id_round_trip() {
    let id: WeaponInstId = <WeaponInstId as InstanceId>::new(42);
    assert_eq!(<WeaponInstId as AsU64>::as_u64(&id), 42);
    assert!(!<WeaponInstId as InstanceId>::is_zero(&id));
    let zero: WeaponInstId = <WeaponInstId as InstanceId>::new(0);
    assert!(<WeaponInstId as InstanceId>::is_zero(&zero));
}

#[test]
fn weapon_instance_traits() {
    let mut w = WeaponInstance::new(WeaponInstId::new(1), "wpn_0002".into(), 0);
    assert_eq!(<WeaponInstance as Templated>::template_id(&w), "wpn_0002");
    assert!(!w.is_locked());
    assert!(<WeaponInstance as NewFlaggable>::is_new(&w));
    assert!(<WeaponInstance as Attachable>::is_detached(&w));
    w.lock();
    assert!(w.is_locked());
    w.mark_seen();
    assert!(!<WeaponInstance as NewFlaggable>::is_new(&w));
}

#[test]
fn stored_mail_facets() {
    let mut m = StoredMail::make_welcome_mail();
    m.mail_id = 7;
    m.template_id = "mail_welcome".into();
    assert_eq!(<StoredMail as Identifiable>::id(&m), 7);
    assert_eq!(<StoredMail as Templated>::template_id(&m), "mail_welcome");
}

#[test]
fn count_by_template_empty() {
    let items: Vec<WeaponInstance> = vec![];
    let counts = count_by_template(&items);
    assert!(counts.is_empty());
}

fn count_of(counts: &[(String, u32)], key: &str) -> u32 {
    counts.iter().find(|(k, _)| k == key).map(|(_, n)| *n).unwrap()
}

#[test]
fn count_by_template_single_item() {
    let mut depot = WeaponDepot::new();
    depot.add_weapon("wpn_sword".to_string(), 0);
    let counts = count_by_template(depot.all_weapons());
    assert_eq!(counts.len(), 1);
    assert_eq!(count_of(&counts, "wpn_sword"), 1);
}

#[test]
fn count_by_template_multiple_same_template() {
    let mut depot = WeaponDepot::new();
    depot.add_weapon("wpn_sword".to_string(), 0);
    depot.add_weapon("wpn_sword".to_string(), 0);
    depot.add_weapon("wpn_sword".to_string(), 0);
    let counts = count_by_template(depot.all_weapons());
    assert_eq!(counts.len(), 1);
    assert_eq!(count_of(&counts, "wpn_sword"), 3);
}

#[test]
fn count_by_template_mixed_templates() {
    let mut depot = WeaponDepot::new();
    depot.add_weapon("wpn_sword".to_string(), 0);
    depot.add_weapon("wpn_bow".to_string(), 0);
    depot.add_weapon("wpn_sword".to_string(), 0);
    let counts = count_by_template(depot.all_weapons());
    assert_eq!(counts.len(), 2);
    assert_eq!(count_of(&counts, "wpn_sword"), 2);
    assert_eq!(count_of(&counts, "wpn_bow"), 1);
    assert_eq!(counts, vec![("wpn_sword".to_string(), 2), ("wpn_bow".to_string(), 1)]);
}

#[test]
fn depot_ids_are_sequential_and_kinds_fixed() {
    let mut depot = WeaponDepot::new();
    assert_eq!(depot.peek_next_id(), 1);
    let a = depot.add_weapon("w".to_string(), 5);
    let b = depot.add_weapon("w".to_string(), 6);
    assert_eq!((a.as_u64(), b.as_u64()), (1, 2));
    depot.bump_next_id_to(1);
    assert_eq!(depot.next_inst_id(), 3);
    depot.bump_next_id_to(10);
    assert_eq!(depot.next_inst_id(), 10);
    assert_eq!(WeaponDepot::new().depot_type(), 1);
    assert_eq!(GemDepot::new().depot_type(), 2);
    assert_eq!(EquipDepot::new().depot_type(), 3);
}

#[test]
fn set_lock_on_missing_item_reports_it() {
    let mut depot = GemDepot::new();
    match depot.set_lock(GemInstId::new(5), true) {
        Err(LogicError::GemNotFound(id)) => assert_eq!(id, GemInstId::new(5)),
        _ => panic!("expected GemNotFound"),
    }
    let mut eq = EquipDepot::new();
    let id = eq.add_equip("eq".to_string(), CraftShowingType::EquipRing, 1);
    assert!(eq.set_lock(id, true).is_ok());
    assert!(eq.get(id).unwrap().is_lock);
    assert_eq!(Container::len(&eq), 1);
    assert!(eq.contains_key(id));
    eq.get_mut_ref(id).unwrap().equip_char_id = 9;
    assert_eq!(eq.get_ref(id).unwrap().attached_to(), 9);
}

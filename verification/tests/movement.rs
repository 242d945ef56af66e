use perlica::logic::movement::{MovementManager, Pos};

#[test]
fn pos_new_sets_components() {
    let p = Pos::new(1.0, 2.0, 3.0);
    assert_eq!(*p.get_x(), 1.0);
    assert_eq!(*p.get_y(), 2.0);
    assert_eq!(*p.get_z(), 3.0);
}

#[test]
fn pos_default_is_zeroed() {
    let p: Pos<f32> = Pos::default();
    assert_eq!(p.inner, [0.0, 0.0, 0.0]);
}

#[test]
fn pos_of_integers() {
    let p = Pos::new(-4i64, 0, 9);
    assert_eq!(p.inner, [-4, 0, 9]);
}

#[test]
fn movement_manager_new() {
    let pos = Pos::new(10.0, 20.0, 30.0);
    let rot = Pos::new(1.0, 2.0, 3.0);
    let mm = MovementManager::new(pos, rot);
    assert_eq!(*mm.pos.get_x(), 10.0);
    assert_eq!(*mm.rot.get_y(), 2.0);
}

#[test]
fn update_position_changes_coords() {
    let pos = Pos::new(0.0, 0.0, 0.0);
    let rot = Pos::new(0.0, 0.0, 0.0);
    let mut mm = MovementManager::new(pos, rot);
    mm.update_position(100.0, 200.0, 300.0);
    assert_eq!(*mm.pos.get_x(), 100.0);
    assert_eq!(*mm.pos.get_y(), 200.0);
    assert_eq!(*mm.pos.get_z(), 300.0);
    assert_eq!(*mm.rot.get_x(), 0.0);
}

#[test]
fn update_rotation_changes_coords() {
    let pos = Pos::new(0.0, 0.0, 0.0);
    let rot = Pos::new(0.0, 0.0, 0.0);
    let mut mm = MovementManager::new(pos, rot);
    mm.update_rotation(45.0, 90.0, 0.0);
    assert_eq!(*mm.rot.get_x(), 45.0);
    assert_eq!(*mm.rot.get_y(), 90.0);
    assert_eq!(*mm.rot.get_z(), 0.0);
    assert_eq!(*mm.pos.get_x(), 0.0);
}

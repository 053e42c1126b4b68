use bfem::alias::AliasTable;
use bfem::errors::Fault;
use bfem::flags::TapeFlags;
use bfem::tape::{CellMode, Tape, TapeMode};

fn tape(size: usize, tape_mode: TapeMode, cell_mode: CellMode) -> Tape {
    Tape::new(TapeFlags { tape_mode, cell_mode, tape_size: size })
}

#[test]
fn cell_add_circular_wraps() {
    let mut t = tape(5, TapeMode::Circular, CellMode::Circular);
    assert_eq!(t.add(200), Ok(()));
    assert_eq!(t.add(100), Ok(()));
    assert_eq!(t.get_value(), 44);
}

#[test]
fn cell_add_clamp_saturates() {
    let mut t = tape(5, TapeMode::Circular, CellMode::Nothing);
    assert_eq!(t.add(200), Ok(()));
    assert_eq!(t.add(100), Ok(()));
    assert_eq!(t.get_value(), 255);
}

#[test]
fn cell_add_fail_reports_and_leaves_cell() {
    let mut t = tape(5, TapeMode::Circular, CellMode::Panic);
    assert_eq!(t.add(200), Ok(()));
    assert_eq!(
        t.add(100),
        Err(Fault::CellRange { address: 0, value: 200, delta: 100 })
    );
    assert_eq!(t.get_value(), 200);
}

#[test]
fn cell_sub_circular_wraps() {
    let mut t = tape(5, TapeMode::Circular, CellMode::Circular);
    assert_eq!(t.sub(1), Ok(()));
    assert_eq!(t.get_value(), 255);
}

#[test]
fn cell_sub_clamp_stops_at_zero() {
    let mut t = tape(5, TapeMode::Circular, CellMode::Nothing);
    assert_eq!(t.add(3), Ok(()));
    assert_eq!(t.sub(5), Ok(()));
    assert_eq!(t.get_value(), 0);
}

#[test]
fn cell_sub_fail_reports_and_leaves_cell() {
    let mut t = tape(5, TapeMode::Circular, CellMode::Panic);
    assert_eq!(t.add(3), Ok(()));
    assert_eq!(t.sub(5), Err(Fault::CellRange { address: 0, value: 3, delta: 5 }));
    assert_eq!(t.get_value(), 3);
}

#[test]
fn pointer_left_circular_wraps() {
    let mut t = tape(5, TapeMode::Circular, CellMode::Circular);
    assert_eq!(t.left(1), Ok(()));
    assert_eq!(t.get_pointer(), 4);
}

#[test]
fn pointer_right_circular_wraps() {
    let mut t = tape(5, TapeMode::Circular, CellMode::Circular);
    t.set_pointer(3);
    assert_eq!(t.right(7), Ok(()));
    assert_eq!(t.get_pointer(), 0);
}

#[test]
fn pointer_right_append_grows_by_count() {
    let mut t = tape(5, TapeMode::Append, CellMode::Circular);
    t.set_pointer(4);
    assert_eq!(t.right(3), Ok(()));
    assert_eq!(t.size(), 8);
    assert_eq!(t.get_pointer(), 7);
}

#[test]
fn pointer_right_append_no_growth_inside() {
    let mut t = tape(5, TapeMode::Append, CellMode::Circular);
    assert_eq!(t.right(3), Ok(()));
    assert_eq!(t.size(), 5);
    assert_eq!(t.get_pointer(), 3);
}

#[test]
fn pointer_left_append_prepends() {
    let mut t = tape(5, TapeMode::Append, CellMode::Circular);
    t.set_value(9);
    t.set_pointer(2);
    assert_eq!(t.left(4), Ok(()));
    assert_eq!(t.size(), 9);
    assert_eq!(t.get_pointer(), 0);
    // the old cells shifted right by the four prepended zeros
    assert_eq!(t.get_value_at_index(4), 9);
}

#[test]
fn pointer_left_fail_reports_and_leaves_pointer() {
    let mut t = tape(5, TapeMode::Panic, CellMode::Circular);
    t.set_pointer(2);
    assert_eq!(
        t.left(3),
        Err(Fault::PointerRange { limit: 0, distance: 3, pointer: 2 })
    );
    assert_eq!(t.get_pointer(), 2);
}

#[test]
fn pointer_right_fail_reports_and_leaves_pointer() {
    let mut t = tape(5, TapeMode::Panic, CellMode::Circular);
    t.set_pointer(4);
    assert_eq!(
        t.right(1),
        Err(Fault::PointerRange { limit: 5, distance: 1, pointer: 4 })
    );
    assert_eq!(t.get_pointer(), 4);
}

#[test]
fn clear_zeroes_and_keeps_size() {
    let mut t = tape(4, TapeMode::Circular, CellMode::Circular);
    t.set_value_at_index(1, 7);
    t.set_value_at_index(3, 9);
    t.clear();
    assert_eq!(t.size(), 4);
    for i in 0..4 {
        assert_eq!(t.get_value_at_index(i), 0);
    }
}

#[test]
fn realign_moves_pointer_home() {
    let mut t = tape(4, TapeMode::Circular, CellMode::Circular);
    t.set_pointer(3);
    t.realign();
    assert_eq!(t.get_pointer(), 0);
}

#[test]
fn default_tape_shape() {
    let t = Tape::default();
    assert_eq!(t.size(), 30000);
    assert_eq!(t.get_pointer(), 0);
    assert_eq!(t.get_value(), 0);
}

#[test]
fn alias_allocation_scans_backwards_and_skips() {
    let mut t = tape(10, TapeMode::Circular, CellMode::Circular);
    t.set_value_at_index(2, 7);
    let mut table = AliasTable::new();
    assert_eq!(table.assign_address(&t, &b"A".to_vec()), Some(9));
    assert_eq!(table.assign_address(&t, &b"B".to_vec()), Some(8));
    assert_eq!(table.resolve(&b"A".to_vec()), Some(9));
    assert_eq!(table.resolve(&b"B".to_vec()), Some(8));
    assert_eq!(table.resolve(&b"C".to_vec()), None);
    assert!(table.contains_address(9));
    assert!(!table.contains_address(7));
}

#[test]
fn alias_allocation_skips_nonzero_cells() {
    let mut t = tape(3, TapeMode::Circular, CellMode::Circular);
    t.set_value_at_index(2, 1);
    let mut table = AliasTable::new();
    assert_eq!(table.assign_address(&t, &b"A".to_vec()), Some(1));
}

#[test]
fn alias_allocation_full_tape_gives_none() {
    let mut t = tape(2, TapeMode::Circular, CellMode::Circular);
    t.set_value_at_index(0, 1);
    t.set_value_at_index(1, 1);
    let mut table = AliasTable::new();
    assert_eq!(table.assign_address(&t, &b"A".to_vec()), None);
}

//! Point access, bounds checking, direction codes, and the packed bit
//! vector.

use voxel_faces::array3d::{Array3D, ShiftDirection};
use voxel_faces::bitvec::BitVec;
use voxel_faces::GridError;

#[test]
fn set_then_get_returns_written_value() {
    let mut g = Array3D::new(16);
    assert_eq!(g.set(3, 4, 5, true), Ok(()));
    assert_eq!(g.get(3, 4, 5), Ok(true));
    assert_eq!(g.set(3, 4, 5, false), Ok(()));
    assert_eq!(g.get(3, 4, 5), Ok(false));
}

#[test]
fn set_leaves_other_cells_alone() {
    let mut g = Array3D::new(16);
    g.set(0, 0, 0, true).unwrap();
    g.set(15, 15, 15, true).unwrap();
    assert_eq!(g.get(0, 0, 0), Ok(true));
    assert_eq!(g.get(15, 15, 15), Ok(true));
    assert_eq!(g.get(1, 0, 0), Ok(false));
    assert_eq!(g.get(15, 15, 14), Ok(false));
}

#[test]
fn get_by_tuple_matches_get() {
    let mut g = Array3D::new(16);
    g.set(7, 8, 9, true).unwrap();
    assert_eq!(g.get_by_tuple((7, 8, 9)), Ok(true));
    assert_eq!(g.get_by_tuple((9, 8, 7)), Ok(false));
}

#[test]
fn out_of_range_coordinates_are_rejected() {
    let mut g = Array3D::new(16);
    assert_eq!(g.get(16, 0, 0), Err(GridError::OutOfRange));
    assert_eq!(g.get(0, 16, 0), Err(GridError::OutOfRange));
    assert_eq!(g.get(0, 0, 16), Err(GridError::OutOfRange));
    assert_eq!(g.get(usize::MAX, 0, 0), Err(GridError::OutOfRange));
    assert_eq!(g.set(16, 0, 0, true), Err(GridError::OutOfRange));
    assert_eq!(g.set(0, 99, 0, true), Err(GridError::OutOfRange));
    // a rejected set changes nothing
    assert_eq!(g.get(15, 15, 15), Ok(false));
}

#[test]
fn small_grid_bounds_follow_its_size() {
    let mut g = Array3D::new(4);
    assert_eq!(g.set(3, 3, 3, true), Ok(()));
    assert_eq!(g.get(3, 3, 3), Ok(true));
    assert_eq!(g.get(4, 0, 0), Err(GridError::OutOfRange));
    assert_eq!(g.set(0, 0, 4, true), Err(GridError::OutOfRange));
}

#[test]
fn direction_codes_round_trip() {
    for code in 0..6 {
        let dir = ShiftDirection::from_number(code).unwrap();
        assert_eq!(dir.to_number(), code);
    }
}

#[test]
fn invalid_direction_code_is_rejected() {
    assert_eq!(ShiftDirection::from_number(6), Err(GridError::InvalidDirection));
    assert_eq!(ShiftDirection::from_number(100), Err(GridError::InvalidDirection));
}

#[test]
fn bitvec_starts_all_zero() {
    let b = BitVec::new(130);
    assert_eq!(b.len(), 130);
    for i in 0..130 {
        assert!(!b.get_bit(i));
    }
}

#[test]
fn bitvec_set_and_get_single_bits() {
    let mut b = BitVec::new(130);
    b.set_bit(0, true);
    b.set_bit(63, true);
    b.set_bit(64, true);
    b.set_bit(129, true);
    for i in 0..130 {
        let expected = i == 0 || i == 63 || i == 64 || i == 129;
        assert_eq!(b.get_bit(i), expected);
    }
    b.set_bit(63, false);
    assert!(!b.get_bit(63));
    assert!(b.get_bit(64));
}

#[test]
fn bitvec_groups_are_zero_or_one() {
    let mut b = BitVec::new(8);
    b.set_group(5, 1);
    assert_eq!(b.get_group(5), 1);
    assert_eq!(b.get_group(4), 0);
    b.set_group(5, 0);
    assert_eq!(b.get_group(5), 0);
}

#[test]
fn bitvec_multiple_groups_pack_low_bits() {
    let mut b = BitVec::new(100);
    b.set_bit(10, true);
    b.set_bit(13, true);
    b.set_bit(14, true);
    // bits 10..18 are 1,0,0,1,1,0,0,0 from the low end
    assert_eq!(b.get_multiple_groups(10, 8), 0b0001_1001);
    // a full word straddling a word boundary
    b.set_bit(63, true);
    b.set_bit(64, true);
    assert_eq!(b.get_multiple_groups(63, 2), 0b11);
}

#[test]
fn bitvec_shift_left_moves_toward_zero() {
    let mut b = BitVec::new(10);
    b.set_bit(4, true);
    b.set_bit(9, true);
    b.shift_left(3);
    for i in 0..10 {
        assert_eq!(b.get_bit(i), i == 1 || i == 6);
    }
}

#[test]
fn bitvec_shift_right_moves_toward_end_and_zero_fills() {
    let mut b = BitVec::new(10);
    b.set_bit(0, true);
    b.set_bit(8, true);
    b.shift_right(2);
    for i in 0..10 {
        assert_eq!(b.get_bit(i), i == 2);
    }
}

#[test]
fn bitvec_xor_and_and_work_bitwise() {
    let mut a = BitVec::new(70);
    let mut b = BitVec::new(70);
    a.set_bit(1, true);
    a.set_bit(65, true);
    b.set_bit(1, true);
    b.set_bit(2, true);
    a.xor_with(&b);
    assert!(!a.get_bit(1));
    assert!(a.get_bit(2));
    assert!(a.get_bit(65));
    let mut c = BitVec::new(70);
    c.set_bit(2, true);
    a.and_with(&c);
    assert!(a.get_bit(2));
    assert!(!a.get_bit(65));
}

#[test]
fn bitvec_same_bits_compares_contents() {
    let mut a = BitVec::new(20);
    let mut b = BitVec::new(20);
    assert!(a.same_bits(&b));
    a.set_bit(7, true);
    assert!(!a.same_bits(&b));
    b.set_bit(7, true);
    assert!(a.same_bits(&b));
    let c = BitVec::new(21);
    assert!(!a.same_bits(&c));
    let copy = a.copy_bits();
    assert!(copy.same_bits(&a));
}

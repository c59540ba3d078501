//! Face visibility: shifting, occlusion, neighbor layers, and the
//! cross-chunk behavior.

use voxel_faces::array3d::{Array3D, ShiftDirection};
use voxel_faces::bitvec::BitVec;

fn no_neighbors() -> Vec<Option<BitVec>> {
    vec![None, None, None, None, None, None]
}

fn all_directions() -> [ShiftDirection; 6] {
    [
        ShiftDirection::Front,
        ShiftDirection::Back,
        ShiftDirection::Left,
        ShiftDirection::Right,
        ShiftDirection::Top,
        ShiftDirection::Bottom,
    ]
}

fn count_set(bits: &BitVec) -> usize {
    let mut n: usize = 0;
    for i in 0..bits.len() {
        if bits.get_bit(i) {
            n += 1;
        }
    }
    n
}

fn index(x: usize, y: usize, z: usize) -> usize {
    x + y * 16 + z * 256
}

#[test]
fn empty_grid_has_no_visible_faces() {
    let g = Array3D::new(16);
    for dir in all_directions() {
        let vis = g.compare_shifted(dir, &no_neighbors());
        assert_eq!(count_set(&vis), 0);
    }
}

#[test]
fn single_interior_cell_shows_one_face_per_direction() {
    let mut g = Array3D::new(16);
    g.set(8, 8, 8, true).unwrap();
    for dir in all_directions() {
        let vis = g.compare_shifted(dir, &no_neighbors());
        assert_eq!(count_set(&vis), 1);
        assert!(vis.get_bit(index(8, 8, 8)));
    }
}

#[test]
fn touching_cells_hide_their_shared_face() {
    let mut g = Array3D::new(16);
    // two cells sharing a face along the x axis
    g.set(8, 8, 8, true).unwrap();
    g.set(9, 8, 8, true).unwrap();
    let c1 = index(8, 8, 8);
    let c2 = index(9, 8, 8);
    for dir in all_directions() {
        let vis = g.compare_shifted(dir, &no_neighbors());
        match dir {
            // the face of (8,8,8) toward +x is pressed against (9,8,8)
            ShiftDirection::Left => {
                assert!(!vis.get_bit(c1));
                assert!(vis.get_bit(c2));
                assert_eq!(count_set(&vis), 1);
            },
            // and the face of (9,8,8) toward -x against (8,8,8)
            ShiftDirection::Right => {
                assert!(vis.get_bit(c1));
                assert!(!vis.get_bit(c2));
                assert_eq!(count_set(&vis), 1);
            },
            // every other face of both cells stays visible
            _ => {
                assert!(vis.get_bit(c1));
                assert!(vis.get_bit(c2));
                assert_eq!(count_set(&vis), 2);
            },
        }
    }
}

#[test]
fn recomputation_is_bit_identical() {
    let mut g = Array3D::new(16);
    g.set(0, 0, 0, true).unwrap();
    g.set(5, 6, 7, true).unwrap();
    g.set(5, 7, 7, true).unwrap();
    g.set(15, 15, 15, true).unwrap();
    for dir in all_directions() {
        let first = g.compare_shifted(dir, &no_neighbors());
        let second = g.compare_shifted(dir, &no_neighbors());
        assert!(first.same_bits(&second));
    }
}

#[test]
fn absent_neighbor_acts_like_an_empty_one() {
    let mut g = Array3D::new(16);
    // solid cells on several boundary planes
    g.set(0, 3, 3, true).unwrap();
    g.set(15, 3, 3, true).unwrap();
    g.set(3, 0, 15, true).unwrap();
    g.set(3, 15, 0, true).unwrap();
    for (slot, dir) in all_directions().into_iter().enumerate() {
        let absent = g.compare_shifted(dir, &no_neighbors());
        let mut with_empty = no_neighbors();
        with_empty[slot] = Some(BitVec::new(256));
        let explicit = g.compare_shifted(dir, &with_empty);
        assert!(absent.same_bits(&explicit));
    }
}

#[test]
fn solid_neighbor_layer_occludes_the_boundary_plane() {
    let mut g = Array3D::new(16);
    // the whole z = 15 plane is solid
    for y in 0..16 {
        for x in 0..16 {
            g.set(x, y, 15, true).unwrap();
        }
    }
    // without a neighbor, all 256 front faces are visible
    let open = g.compare_shifted(ShiftDirection::Front, &no_neighbors());
    assert_eq!(count_set(&open), 256);
    // a fully solid neighbor layer hides them all
    let mut layer = BitVec::new(256);
    for j in 0..256 {
        layer.set_bit(j, true);
    }
    let mut neighbors = no_neighbors();
    neighbors[0] = Some(layer);
    let closed = g.compare_shifted(ShiftDirection::Front, &neighbors);
    assert_eq!(count_set(&closed), 0);
}

#[test]
fn cross_chunk_culling_uses_the_neighbor_boundary() {
    // chunk A entirely empty; chunk B adjacent along +x, with its near
    // boundary plane (x = 0) fully solid.
    let a = Array3D::new(16);
    let mut b = Array3D::new(16);
    for z in 0..16 {
        for y in 0..16 {
            b.set(0, y, z, true).unwrap();
        }
    }
    // A's visibility toward B: A has no solid cell, so nothing is visible
    let layer_from_b = b.boundary_layer(ShiftDirection::Left);
    let mut neighbors_a = no_neighbors();
    neighbors_a[ShiftDirection::Left.to_number()] = Some(layer_from_b);
    let a_toward_b = a.compare_shifted(ShiftDirection::Left, &neighbors_a);
    assert_eq!(count_set(&a_toward_b), 0);
    // B's visibility toward A, with A's all-empty layer as neighbor input:
    // B's whole x = 0 plane is visible
    let layer_from_a = a.boundary_layer(ShiftDirection::Right);
    let mut neighbors_b = no_neighbors();
    neighbors_b[ShiftDirection::Right.to_number()] = Some(layer_from_a);
    let b_toward_a = b.compare_shifted(ShiftDirection::Right, &neighbors_b);
    assert_eq!(count_set(&b_toward_a), 256);
    for z in 0..16 {
        for y in 0..16 {
            assert!(b_toward_a.get_bit(index(0, y, z)));
        }
    }
}

#[test]
fn boundary_layer_reads_the_near_face_plane() {
    let mut b = Array3D::new(16);
    b.set(15, 3, 5, true).unwrap();
    // seen from a chunk looking along -x at this grid, the near face is
    // the x = 15 plane, laid out as higher-axis-first: z rows, y columns
    let layer = b.boundary_layer(ShiftDirection::Right);
    assert_eq!(layer.len(), 256);
    for j in 0..256 {
        assert_eq!(layer.get_bit(j), j == 5 * 16 + 3);
    }
    // the plane on the other side of the axis is empty
    let other = b.boundary_layer(ShiftDirection::Left);
    for j in 0..256 {
        assert!(!other.get_bit(j));
    }
}

#[test]
fn get_shifted_samples_the_cell_one_step_away() {
    let mut g = Array3D::new(16);
    g.set(5, 5, 5, true).unwrap();
    // shifting toward +z: the bit appears at the cell whose +z neighbor is solid
    let sh = g.get_shifted(&ShiftDirection::Front, &no_neighbors());
    assert!(sh.get_bit(index(5, 5, 4)));
    assert!(!sh.get_bit(index(5, 5, 5)));
    assert_eq!(count_set(&sh), 1);
    // and toward -x
    let sh = g.get_shifted(&ShiftDirection::Right, &no_neighbors());
    assert!(sh.get_bit(index(6, 5, 5)));
    assert_eq!(count_set(&sh), 1);
}

#[test]
fn get_faces_returns_all_six_directions_in_code_order() {
    let mut g = Array3D::new(16);
    g.set(8, 8, 8, true).unwrap();
    let faces = g.get_faces(no_neighbors());
    assert_eq!(faces.len(), 6);
    for (slot, dir) in all_directions().into_iter().enumerate() {
        let expected = g.compare_shifted(dir, &no_neighbors());
        assert!(faces[slot].same_bits(&expected));
    }
}

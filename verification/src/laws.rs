//! Laws of the occupancy and face-visibility model.
//!
//! Each proof function here states a property of the specification
//! functions that the executable contracts in [`crate::array3d`] are pinned
//! to, so what is proved of the model carries over to every run of the
//! code.

use crate::array3d::{
    cells, grid_index, lemma_coords_reconstruct, lemma_grid_index_coords, lemma_plane_reconstruct,
    lemma_step, on_exposed_plane, shifted_bit, shifted_grid, visible_bit, visible_grid,
    ShiftDirection,
};
use vstd::prelude::*;

verus! {

/// The all-empty occupancy sequence of a cube with side `size`.
pub open spec fn empty_grid(size: int) -> Seq<bool> {
    Seq::new(cells(size) as nat, |i: int| false)
}

/// An all-empty boundary layer for a cube with side `size`.
pub open spec fn empty_layer(size: int) -> Seq<bool> {
    Seq::new((size * size) as nat, |j: int| false)
}

/// Writing a cell and reading it back yields the written value, and no
/// other cell moves.
pub proof fn lemma_set_then_get(g: Seq<bool>, size: int, x: int, y: int, z: int, value: bool)
    requires
        size >= 1,
        g.len() == cells(size),
        0 <= x < size,
        0 <= y < size,
        0 <= z < size,
    ensures
        g.update(grid_index(size, x, y, z), value)[grid_index(size, x, y, z)] == value,
        forall|x2: int, y2: int, z2: int|
            0 <= x2 < size && 0 <= y2 < size && 0 <= z2 < size && !(x2 == x && y2 == y && z2 == z)
                ==> g.update(grid_index(size, x, y, z), value)[#[trigger] grid_index(
                size,
                x2,
                y2,
                z2,
            )] == g[grid_index(size, x2, y2, z2)],
{
    lemma_grid_index_coords(size, x, y, z);
    assert forall|x2: int, y2: int, z2: int|
        0 <= x2 < size && 0 <= y2 < size && 0 <= z2 < size && !(x2 == x && y2 == y && z2
            == z) implies g.update(grid_index(size, x, y, z), value)[#[trigger] grid_index(
        size,
        x2,
        y2,
        z2,
    )] == g[grid_index(size, x2, y2, z2)] by {
        lemma_grid_index_coords(size, x2, y2, z2);
    }
}

/// An all-empty grid shows no visible face in any direction, whatever the
/// neighbor layers hold.
pub proof fn lemma_empty_grid_invisible(size: int, dir: ShiftDirection, layer: Option<Seq<bool>>)
    requires
        size >= 1,
    ensures
        forall|i: int|
            0 <= i < cells(size) ==> !(#[trigger] visible_grid(
                empty_grid(size),
                size,
                dir,
                layer,
            )[i]),
{
}

/// Face visibility is a function of the occupancy and the neighbor layer
/// alone: two results computed from the same inputs are bit-identical.
pub proof fn lemma_visibility_deterministic(
    r1: Seq<bool>,
    r2: Seq<bool>,
    g: Seq<bool>,
    size: int,
    dir: ShiftDirection,
    layer: Option<Seq<bool>>,
)
    requires
        r1 == visible_grid(g, size, dir, layer),
        r2 == visible_grid(g, size, dir, layer),
    ensures
        r1 == r2,
{
}

/// An absent neighbor occludes nothing: it yields exactly the shifted and
/// visible bits that an all-empty neighbor layer yields.
pub proof fn lemma_absent_neighbor_open(g: Seq<bool>, size: int, dir: ShiftDirection)
    requires
        size >= 1,
    ensures
        shifted_grid(g, size, dir, None) == shifted_grid(g, size, dir, Some(empty_layer(size))),
        visible_grid(g, size, dir, None) == visible_grid(g, size, dir, Some(empty_layer(size))),
{
    assert forall|i: int| 0 <= i < cells(size) implies shifted_bit(g, size, dir, None, i)
        == shifted_bit(g, size, dir, Some(empty_layer(size)), i) by {
        lemma_plane_reconstruct(size, dir, i);
    }
    assert(shifted_grid(g, size, dir, None) =~= shifted_grid(
        g,
        size,
        dir,
        Some(empty_layer(size)),
    ));
    assert(visible_grid(g, size, dir, None) =~= visible_grid(
        g,
        size,
        dir,
        Some(empty_layer(size)),
    ));
}

/// Directions are distinguished by their unit offsets.
proof fn lemma_offset_injective(d1: ShiftDirection, d2: ShiftDirection)
    ensures
        (d1.offset() == d2.offset()) == (d1 == d2),
{
}

/// A cell strictly inside the cube never lies on an exposed plane.
proof fn lemma_interior_not_exposed(size: int, x: int, y: int, z: int, dir: ShiftDirection)
    requires
        size >= 1,
        1 <= x < size - 1,
        1 <= y < size - 1,
        1 <= z < size - 1,
    ensures
        !on_exposed_plane(size, dir, grid_index(size, x, y, z)),
{
    lemma_grid_index_coords(size, x, y, z);
}

/// A single occupied interior cell makes exactly one face visible in each
/// direction — its own — so each of the six bitsets carries exactly one set
/// bit, and that bit decodes back to the cell's coordinates.
pub proof fn lemma_single_cell_faces(
    size: int,
    x: int,
    y: int,
    z: int,
    dir: ShiftDirection,
    layer: Option<Seq<bool>>,
)
    requires
        size >= 1,
        1 <= x < size - 1,
        1 <= y < size - 1,
        1 <= z < size - 1,
    ensures
        forall|i: int|
            0 <= i < cells(size) ==> (#[trigger] visible_grid(
                empty_grid(size).update(grid_index(size, x, y, z), true),
                size,
                dir,
                layer,
            )[i] == (i == grid_index(size, x, y, z))),
{
    let c = grid_index(size, x, y, z);
    let g = empty_grid(size).update(c, true);
    lemma_grid_index_coords(size, x, y, z);
    lemma_interior_not_exposed(size, x, y, z, dir);
    assert forall|i: int| 0 <= i < cells(size) implies (visible_grid(g, size, dir, layer)[i] == (i
        == c)) by {
        lemma_coords_reconstruct(size, i);
        if i == c {
            lemma_step(size, dir, i);
            let nx = x + dir.offset().0;
            let ny = y + dir.offset().1;
            let nz = z + dir.offset().2;
            lemma_grid_index_coords(size, nx, ny, nz);
            assert(grid_index(size, nx, ny, nz) != c);
            assert(!g[grid_index(size, nx, ny, nz)]);
            assert(visible_bit(g, size, dir, layer, i));
        }
    }
}

/// Two solid cells sharing a face hide that face from both sides and leave
/// every other face of both cells visible: the face of the first cell
/// toward the second is hidden, the face of the second toward the first is
/// hidden, and those are the only two bits that differ from a lone solid
/// cell's bitsets.
pub proof fn lemma_adjacent_pair_faces(
    size: int,
    x: int,
    y: int,
    z: int,
    d0: ShiftDirection,
    dir: ShiftDirection,
    layer: Option<Seq<bool>>,
)
    requires
        size >= 1,
        1 <= x < size - 1,
        1 <= y < size - 1,
        1 <= z < size - 1,
        1 <= x + d0.offset().0 < size - 1,
        1 <= y + d0.offset().1 < size - 1,
        1 <= z + d0.offset().2 < size - 1,
    ensures
        ({
            let c1 = grid_index(size, x, y, z);
            let c2 = grid_index(
                size,
                x + d0.offset().0,
                y + d0.offset().1,
                z + d0.offset().2,
            );
            let g = empty_grid(size).update(c1, true).update(c2, true);
            forall|i: int|
                0 <= i < cells(size) ==> (#[trigger] visible_grid(g, size, dir, layer)[i] == ((i
                    == c1 && dir != d0) || (i == c2 && dir != d0.opposite())))
        }),
{
    let x2 = x + d0.offset().0;
    let y2 = y + d0.offset().1;
    let z2 = z + d0.offset().2;
    let c1 = grid_index(size, x, y, z);
    let c2 = grid_index(size, x2, y2, z2);
    let g = empty_grid(size).update(c1, true).update(c2, true);
    lemma_grid_index_coords(size, x, y, z);
    lemma_grid_index_coords(size, x2, y2, z2);
    assert(c1 != c2);
    lemma_interior_not_exposed(size, x, y, z, dir);
    lemma_interior_not_exposed(size, x2, y2, z2, dir);
    assert forall|i: int| 0 <= i < cells(size) implies (visible_grid(g, size, dir, layer)[i] == ((i
        == c1 && dir != d0) || (i == c2 && dir != d0.opposite()))) by {
        lemma_coords_reconstruct(size, i);
        if i == c1 {
            lemma_step(size, dir, i);
            let nx = x + dir.offset().0;
            let ny = y + dir.offset().1;
            let nz = z + dir.offset().2;
            let nc = grid_index(size, nx, ny, nz);
            lemma_grid_index_coords(size, nx, ny, nz);
            assert(nc != c1);
            assert((nc == c2) == (dir == d0)) by {
                lemma_offset_injective(dir, d0);
            }
            assert(shifted_bit(g, size, dir, layer, i) == g[nc]);
        } else if i == c2 {
            lemma_step(size, dir, i);
            let nx = x2 + dir.offset().0;
            let ny = y2 + dir.offset().1;
            let nz = z2 + dir.offset().2;
            let nc = grid_index(size, nx, ny, nz);
            lemma_grid_index_coords(size, nx, ny, nz);
            assert(nc != c2);
            assert((nc == c1) == (dir == d0.opposite())) by {
                lemma_offset_injective(dir, d0.opposite());
            }
            assert(shifted_bit(g, size, dir, layer, i) == g[nc]);
        }
    }
}

} // verus!

//! A cubic grid of occupancy bits with neighbor-aware shifting.
//!
//! `Array3D` holds one bit per cell of a `size`-sided cube, linearized as
//! `index(x, y, z) = x + y*size + z*size*size`.  Its core operation produces
//! a copy of the grid in which every bit has moved one cell along one of the
//! six axis directions, splicing a neighbor's boundary plane into the cells
//! the move exposes; from that, the set of externally visible faces per
//! direction is a pair of bitwise operations.

use crate::bitvec::BitVec;
use crate::GridError;
use vstd::arithmetic::div_mod::{
    lemma_div_denominator, lemma_div_pos_is_pos, lemma_fundamental_div_mod,
    lemma_fundamental_div_mod_converse, lemma_mod_bound, lemma_multiply_divide_lt,
};
use vstd::prelude::*;

verus! {

/// Number of cells in a cube with the given side length.
pub open spec fn cells(size: int) -> int {
    size * size * size
}

/// Linear index of cell `(x, y, z)` in a cube of side `size`.
pub open spec fn grid_index(size: int, x: int, y: int, z: int) -> int {
    x + y * size + z * size * size
}

/// The x coordinate encoded in linear index `i`.
pub open spec fn coord_x(size: int, i: int) -> int {
    i % size
}

/// The y coordinate encoded in linear index `i`.
pub open spec fn coord_y(size: int, i: int) -> int {
    (i / size) % size
}

/// The z coordinate encoded in linear index `i`.
pub open spec fn coord_z(size: int, i: int) -> int {
    i / (size * size)
}

/// `grid_index` lands inside the cube and decodes back to its coordinates.
pub proof fn lemma_grid_index_coords(size: int, x: int, y: int, z: int)
    requires
        size >= 1,
        0 <= x < size,
        0 <= y < size,
        0 <= z < size,
    ensures
        0 <= grid_index(size, x, y, z) < cells(size),
        coord_x(size, grid_index(size, x, y, z)) == x,
        coord_y(size, grid_index(size, x, y, z)) == y,
        coord_z(size, grid_index(size, x, y, z)) == z,
{
    let i = grid_index(size, x, y, z);
    assert(0 <= y + z * size < size * size && i == (y + z * size) * size + x && i < cells(size))
        by (nonlinear_arith)
        requires
            size >= 1,
            0 <= x < size,
            0 <= y < size,
            0 <= z < size,
            i == x + y * size + z * size * size,
    ;
    lemma_fundamental_div_mod_converse(i, size, y + z * size, x);
    lemma_fundamental_div_mod_converse(y + z * size, size, z, y);
    lemma_div_denominator(i, size, size);
}

/// Every linear index inside the cube decodes to in-range coordinates that
/// encode back to it.
pub proof fn lemma_coords_reconstruct(size: int, i: int)
    requires
        size >= 1,
        0 <= i < cells(size),
    ensures
        0 <= coord_x(size, i) < size,
        0 <= coord_y(size, i) < size,
        0 <= coord_z(size, i) < size,
        grid_index(size, coord_x(size, i), coord_y(size, i), coord_z(size, i)) == i,
{
    let x = coord_x(size, i);
    let y = coord_y(size, i);
    let z = coord_z(size, i);
    lemma_mod_bound(i, size);
    lemma_div_pos_is_pos(i, size);
    lemma_mod_bound(i / size, size);
    assert(cells(size) == (size * size) * size && size * size >= 1) by (nonlinear_arith)
        requires
            size >= 1,
    ;
    lemma_multiply_divide_lt(i, size * size, size);
    lemma_div_pos_is_pos(i, size * size);
    lemma_fundamental_div_mod(i, size);
    lemma_fundamental_div_mod(i / size, size);
    lemma_div_denominator(i, size, size);
    assert(i == size * (size * z + y) + x ==> i == x + y * size + z * size * size)
        by (nonlinear_arith);
}

/// One of the six axis-aligned unit directions a face can point toward.
///
/// `Left`/`Right` run along the x axis, `Top`/`Bottom` along y,
/// `Front`/`Back` along z; the first of each pair points toward the
/// positive side of its axis.
#[derive(Clone, Copy, Debug, PartialEq, Eq, Structural)]
pub enum ShiftDirection {
    Front,
    Back,
    Left,
    Right,
    Top,
    Bottom,
}

impl ShiftDirection {
    /// The code this direction answers to, 0 through 5.
    pub open spec fn number(self) -> int {
        match self {
            ShiftDirection::Front => 0,
            ShiftDirection::Back => 1,
            ShiftDirection::Left => 2,
            ShiftDirection::Right => 3,
            ShiftDirection::Top => 4,
            ShiftDirection::Bottom => 5,
        }
    }

    /// The axis this direction runs along: 0 for x, 1 for y, 2 for z.
    pub open spec fn axis(self) -> int {
        match self {
            ShiftDirection::Left | ShiftDirection::Right => 0,
            ShiftDirection::Top | ShiftDirection::Bottom => 1,
            ShiftDirection::Front | ShiftDirection::Back => 2,
        }
    }

    /// Whether the direction points toward the positive side of its axis.
    pub open spec fn positive(self) -> bool {
        match self {
            ShiftDirection::Front | ShiftDirection::Left | ShiftDirection::Top => true,
            _ => false,
        }
    }

    /// The direction pointing the opposite way along the same axis.
    pub open spec fn opposite(self) -> ShiftDirection {
        match self {
            ShiftDirection::Front => ShiftDirection::Back,
            ShiftDirection::Back => ShiftDirection::Front,
            ShiftDirection::Left => ShiftDirection::Right,
            ShiftDirection::Right => ShiftDirection::Left,
            ShiftDirection::Top => ShiftDirection::Bottom,
            ShiftDirection::Bottom => ShiftDirection::Top,
        }
    }

    /// How far the linear index moves for one cell of travel along this
    /// direction's axis.
    pub open spec fn stride(self, size: int) -> int {
        if self.axis() == 0 {
            1
        } else if self.axis() == 1 {
            size
        } else {
            size * size
        }
    }

    /// The unit offset `(dx, dy, dz)` this direction stands for.
    pub open spec fn offset(self) -> (int, int, int) {
        match self {
            ShiftDirection::Front => (0, 0, 1),
            ShiftDirection::Back => (0, 0, -1),
            ShiftDirection::Left => (1, 0, 0),
            ShiftDirection::Right => (-1, 0, 0),
            ShiftDirection::Top => (0, 1, 0),
            ShiftDirection::Bottom => (0, -1, 0),
        }
    }

    /// The direction named by `number`, or `InvalidDirection` for a code
    /// outside the six valid values.
    pub fn from_number(number: usize) -> (r: Result<ShiftDirection, GridError>)
        ensures
            number < 6 ==> (r matches Ok(d) && d.number() == number),
            number >= 6 ==> (r matches Err(e) && e == GridError::InvalidDirection),
    {
        match number {
            0 => Ok(ShiftDirection::Front),
            1 => Ok(ShiftDirection::Back),
            2 => Ok(ShiftDirection::Left),
            3 => Ok(ShiftDirection::Right),
            4 => Ok(ShiftDirection::Top),
            5 => Ok(ShiftDirection::Bottom),
            _ => Err(GridError::InvalidDirection),
        }
    }

    /// This direction's code.
    pub fn to_number(&self) -> (n: usize)
        ensures
            n == self.number(),
    {
        match self {
            ShiftDirection::Front => 0,
            ShiftDirection::Back => 1,
            ShiftDirection::Left => 2,
            ShiftDirection::Right => 3,
            ShiftDirection::Top => 4,
            ShiftDirection::Bottom => 5,
        }
    }
}

/// The coordinate of cell `i` along `dir`'s axis.
pub open spec fn axis_coord(size: int, dir: ShiftDirection, i: int) -> int {
    if dir.axis() == 0 {
        coord_x(size, i)
    } else if dir.axis() == 1 {
        coord_y(size, i)
    } else {
        coord_z(size, i)
    }
}

/// The axis coordinate of the plane that a one-cell move along `dir`
/// exposes: the far plane for a positive direction, the near plane
/// otherwise.  Cells there have no in-grid neighbor along `dir`.
pub open spec fn exposed_coord(size: int, dir: ShiftDirection) -> int {
    if dir.positive() {
        size - 1
    } else {
        0
    }
}

/// The axis coordinate of a neighboring chunk's plane that touches a chunk
/// looking along `dir`: the mirror of `exposed_coord`.
pub open spec fn near_coord(size: int, dir: ShiftDirection) -> int {
    if dir.positive() {
        0
    } else {
        size - 1
    }
}

/// Whether cell `i` lies on the plane that a move along `dir` exposes.
pub open spec fn on_exposed_plane(size: int, dir: ShiftDirection, i: int) -> bool {
    axis_coord(size, dir, i) == exposed_coord(size, dir)
}

/// Where in an `size`-by-`size` boundary layer the cell `i` reads: the two
/// coordinates orthogonal to `dir`'s axis, higher axis first.
pub open spec fn layer_index(size: int, dir: ShiftDirection, i: int) -> int {
    if dir.axis() == 0 {
        coord_z(size, i) * size + coord_y(size, i)
    } else if dir.axis() == 1 {
        coord_z(size, i) * size + coord_x(size, i)
    } else {
        coord_y(size, i) * size + coord_x(size, i)
    }
}

/// The cell whose coordinate along `dir`'s axis is `c` and whose orthogonal
/// coordinates are `a` (the higher axis) and `b` (the lower one).
pub open spec fn plane_cell(size: int, dir: ShiftDirection, c: int, a: int, b: int) -> int {
    if dir.axis() == 0 {
        grid_index(size, c, b, a)
    } else if dir.axis() == 1 {
        grid_index(size, b, c, a)
    } else {
        grid_index(size, b, a, c)
    }
}

/// The bit sequences behind an optional boundary layer.
pub open spec fn layer_view(n: Option<BitVec>) -> Option<Seq<bool>> {
    match n {
        Some(b) => Some(b@),
        None => None,
    }
}

/// What an absent or present neighbor contributes at cell `i` of the
/// exposed plane: its boundary bit, or open space when there is no
/// neighbor.
pub open spec fn layer_bit(
    layer: Option<Seq<bool>>,
    size: int,
    dir: ShiftDirection,
    i: int,
) -> bool {
    match layer {
        Some(l) => l[layer_index(size, dir, i)],
        None => false,
    }
}

/// The occupancy one step along `dir` from cell `i`: read from the grid
/// when that step stays inside the cube, from the neighbor layer when it
/// leaves it.
pub open spec fn shifted_bit(
    g: Seq<bool>,
    size: int,
    dir: ShiftDirection,
    layer: Option<Seq<bool>>,
    i: int,
) -> bool {
    let nx = coord_x(size, i) + dir.offset().0;
    let ny = coord_y(size, i) + dir.offset().1;
    let nz = coord_z(size, i) + dir.offset().2;
    if 0 <= nx < size && 0 <= ny < size && 0 <= nz < size {
        g[grid_index(size, nx, ny, nz)]
    } else {
        layer_bit(layer, size, dir, i)
    }
}

/// The whole grid moved one cell along `dir`, with the neighbor layer
/// spliced into the exposed plane.
pub open spec fn shifted_grid(
    g: Seq<bool>,
    size: int,
    dir: ShiftDirection,
    layer: Option<Seq<bool>>,
) -> Seq<bool> {
    Seq::new(cells(size) as nat, |i: int| shifted_bit(g, size, dir, layer, i))
}

/// Whether cell `i`'s face toward `dir` is externally visible: the cell is
/// solid and whatever lies one step along `dir` is not.
pub open spec fn visible_bit(
    g: Seq<bool>,
    size: int,
    dir: ShiftDirection,
    layer: Option<Seq<bool>>,
    i: int,
) -> bool {
    g[i] && !shifted_bit(g, size, dir, layer, i)
}

/// The bitset of cells whose face toward `dir` is externally visible.
pub open spec fn visible_grid(
    g: Seq<bool>,
    size: int,
    dir: ShiftDirection,
    layer: Option<Seq<bool>>,
) -> Seq<bool> {
    Seq::new(cells(size) as nat, |i: int| visible_bit(g, size, dir, layer, i))
}

/// The direction with the given code; callers keep the code below 6.
pub open spec fn dir_of_number(d: int) -> ShiftDirection {
    if d == 0 {
        ShiftDirection::Front
    } else if d == 1 {
        ShiftDirection::Back
    } else if d == 2 {
        ShiftDirection::Left
    } else if d == 3 {
        ShiftDirection::Right
    } else if d == 4 {
        ShiftDirection::Top
    } else {
        ShiftDirection::Bottom
    }
}

/// The `size`-by-`size` occupancy plane of `g` that touches a chunk
/// looking along `dir` at it: position `a*size + b` of the layer holds the
/// cell with orthogonal coordinates `(a, b)` on the near face.
pub open spec fn boundary_layer_spec(g: Seq<bool>, size: int, dir: ShiftDirection) -> Seq<bool> {
    Seq::new(
        (size * size) as nat,
        |j: int| g[plane_cell(size, dir, near_coord(size, dir), j / size, j % size)],
    )
}

/// A well-formed bundle of optional neighbor layers: one slot per
/// direction, each present layer an intact `size`-by-`size` bit plane.
pub open spec fn neighbors_ok(size: int, ns: Seq<Option<BitVec>>) -> bool {
    &&& ns.len() == 6
    &&& forall|d: int|
        0 <= d < 6 ==> (#[trigger] ns[d] matches Some(l) ==> l.wf() && l@.len() == size * size)
}

/// The state of a boundary splice in progress: the exposed-plane cells
/// whose layer position lies below `t` already carry the neighbor's bit,
/// and every other cell still carries what `orig` held.
spec fn splice_partial(
    size: int,
    dir: ShiftDirection,
    layer: Option<Seq<bool>>,
    orig: Seq<bool>,
    cur: Seq<bool>,
    t: int,
) -> bool {
    forall|i: int|
        0 <= i < cells(size) ==> cur[i] == if on_exposed_plane(size, dir, i) && layer_index(
            size,
            dir,
            i,
        ) < t {
            layer_bit(layer, size, dir, i)
        } else {
            orig[i]
        }
}

/// A plane cell built from its axis coordinate and orthogonal pair lands in
/// the cube, sits on the plane it was built for, and reads the layer at the
/// position its orthogonal pair names.
pub proof fn lemma_plane_cell_props(size: int, dir: ShiftDirection, c: int, a: int, b: int)
    requires
        size >= 1,
        0 <= c < size,
        0 <= a < size,
        0 <= b < size,
    ensures
        0 <= plane_cell(size, dir, c, a, b) < cells(size),
        axis_coord(size, dir, plane_cell(size, dir, c, a, b)) == c,
        layer_index(size, dir, plane_cell(size, dir, c, a, b)) == a * size + b,
{
    if dir.axis() == 0 {
        lemma_grid_index_coords(size, c, b, a);
    } else if dir.axis() == 1 {
        lemma_grid_index_coords(size, b, c, a);
    } else {
        lemma_grid_index_coords(size, b, a, c);
    }
}

/// Every cell decomposes into its axis coordinate and its layer position,
/// and the layer position stays inside the layer.
pub proof fn lemma_plane_reconstruct(size: int, dir: ShiftDirection, i: int)
    requires
        size >= 1,
        0 <= i < cells(size),
    ensures
        0 <= layer_index(size, dir, i) < size * size,
        0 <= axis_coord(size, dir, i) < size,
        plane_cell(
            size,
            dir,
            axis_coord(size, dir, i),
            layer_index(size, dir, i) / size,
            layer_index(size, dir, i) % size,
        ) == i,
{
    lemma_coords_reconstruct(size, i);
    let x = coord_x(size, i);
    let y = coord_y(size, i);
    let z = coord_z(size, i);
    if dir.axis() == 0 {
        assert(0 <= z * size + y < size * size) by (nonlinear_arith)
            requires
                size >= 1 && 0 <= y < size && 0 <= z < size,
        ;
        lemma_fundamental_div_mod_converse(z * size + y, size, z, y);
    } else if dir.axis() == 1 {
        assert(0 <= z * size + x < size * size) by (nonlinear_arith)
            requires
                size >= 1 && 0 <= x < size && 0 <= z < size,
        ;
        lemma_fundamental_div_mod_converse(z * size + x, size, z, x);
    } else {
        assert(0 <= y * size + x < size * size) by (nonlinear_arith)
            requires
                size >= 1 && 0 <= x < size && 0 <= y < size,
        ;
        lemma_fundamental_div_mod_converse(y * size + x, size, y, x);
    }
}

/// For a cell off the exposed plane, the one-step move along `dir` stays in
/// the cube and its landing cell sits exactly one stride away in the linear
/// order — up for positive directions, down for negative ones.
pub proof fn lemma_step(size: int, dir: ShiftDirection, i: int)
    requires
        size >= 1,
        0 <= i < cells(size),
        !on_exposed_plane(size, dir, i),
    ensures
        0 <= coord_x(size, i) + dir.offset().0 < size,
        0 <= coord_y(size, i) + dir.offset().1 < size,
        0 <= coord_z(size, i) + dir.offset().2 < size,
        grid_index(
            size,
            coord_x(size, i) + dir.offset().0,
            coord_y(size, i) + dir.offset().1,
            coord_z(size, i) + dir.offset().2,
        ) == if dir.positive() {
            i + dir.stride(size)
        } else {
            i - dir.stride(size)
        },
        dir.positive() ==> i + dir.stride(size) < cells(size),
        !dir.positive() ==> 0 <= i - dir.stride(size),
{
    lemma_coords_reconstruct(size, i);
    let x = coord_x(size, i);
    let y = coord_y(size, i);
    let z = coord_z(size, i);
    let nx = x + dir.offset().0;
    let ny = y + dir.offset().1;
    let nz = z + dir.offset().2;
    lemma_grid_index_coords(size, nx, ny, nz);
    assert((y + 1) * size == y * size + size && (y - 1) * size == y * size - size && (z + 1) * size
        * size == z * size * size + size * size && (z - 1) * size * size == z * size * size - size
        * size) by (nonlinear_arith);
}

/// A cubic grid of occupancy bits, one bit per cell.
pub struct Array3D {
    data: BitVec,
    size: usize,
}

impl View for Array3D {
    type V = Seq<bool>;

    closed spec fn view(&self) -> Seq<bool> {
        self.data@
    }
}

impl Array3D {
    /// The cube's side length.
    pub closed spec fn spec_size(self) -> int {
        self.size as int
    }

    /// The packed words behind the view are intact.
    pub closed spec fn data_wf(self) -> bool {
        self.data.wf()
    }

    /// A valid grid: the side is positive, the bit sequence covers exactly
    /// the cube's cells, and the cell count fits the machine.
    pub open spec fn wf(self) -> bool {
        &&& self.data_wf()
        &&& self.spec_size() >= 1
        &&& self@.len() == cells(self.spec_size())
        &&& cells(self.spec_size()) <= usize::MAX
    }

    /// A new all-empty grid; `size` is the length of one side of the cube.
    pub fn new(size: usize) -> (r: Array3D)
        requires
            1 <= size,
            cells(size as int) <= usize::MAX,
        ensures
            r.wf(),
            r.spec_size() == size,
            forall|i: int| 0 <= i < cells(size as int) ==> !r@[i],
    {
        proof {
            assert(size * size <= usize::MAX && size * size * size == cells(size as int))
                by (nonlinear_arith)
                requires
                    size >= 0,
                    cells(size as int) <= usize::MAX,
            ;
        }
        let area: usize = size * size;
        let volume: usize = area * size;
        let data = BitVec::new(volume);
        Array3D { data, size }
    }

    /// The cube's side length.
    pub fn size(&self) -> (s: usize)
        ensures
            s == self.spec_size(),
    {
        self.size
    }

    /// Linear index of an in-range cell.
    fn get_index(&self, x: usize, y: usize, z: usize) -> (i: usize)
        requires
            self.wf(),
            x < self.spec_size(),
            y < self.spec_size(),
            z < self.spec_size(),
        ensures
            i == grid_index(self.spec_size(), x as int, y as int, z as int),
            i < cells(self.spec_size()),
    {
        proof {
            let s = self.spec_size();
            lemma_grid_index_coords(s, x as int, y as int, z as int);
            assert(s * s <= s * s * s && 0 <= y * s && 0 <= z * (s * s) && x + y * s + z * (s * s)
                == grid_index(s, x as int, y as int, z as int)) by (nonlinear_arith)
                requires
                    1 <= s,
                    0 <= x < s,
                    0 <= y < s,
                    0 <= z < s,
            ;
        }
        let area: usize = self.size * self.size;
        x + y * self.size + z * area
    }

    /// The occupancy of cell `(x, y, z)`, or `OutOfRange` when a coordinate
    /// reaches past the cube's side.
    pub fn get(&self, x: usize, y: usize, z: usize) -> (r: Result<bool, GridError>)
        requires
            self.wf(),
        ensures
            x < self.spec_size() && y < self.spec_size() && z < self.spec_size() ==> (r matches Ok(
                b,
            ) && b == self@[grid_index(self.spec_size(), x as int, y as int, z as int)]),
            !(x < self.spec_size() && y < self.spec_size() && z < self.spec_size()) ==> (r matches
                Err(e) && e == GridError::OutOfRange),
    {
        if x >= self.size || y >= self.size || z >= self.size {
            return Err(GridError::OutOfRange);
        }
        let index = self.get_index(x, y, z);
        Ok(self.data.get_bit(index))
    }

    /// `get` on a coordinate triple.
    pub fn get_by_tuple(&self, pos: (usize, usize, usize)) -> (r: Result<bool, GridError>)
        requires
            self.wf(),
        ensures
            pos.0 < self.spec_size() && pos.1 < self.spec_size() && pos.2 < self.spec_size() ==> (r
                matches Ok(b) && b == self@[grid_index(
                self.spec_size(),
                pos.0 as int,
                pos.1 as int,
                pos.2 as int,
            )]),
            !(pos.0 < self.spec_size() && pos.1 < self.spec_size() && pos.2 < self.spec_size())
                ==> (r matches Err(e) && e == GridError::OutOfRange),
    {
        self.get(pos.0, pos.1, pos.2)
    }

    /// Overwrite the occupancy of cell `(x, y, z)` with `value`; every other
    /// cell keeps its bit.  Fails with `OutOfRange`, changing nothing, when
    /// a coordinate reaches past the cube's side.
    pub fn set(&mut self, x: usize, y: usize, z: usize, value: bool) -> (r: Result<
        (),
        GridError,
    >)
        requires
            old(self).wf(),
        ensures
            final(self).wf(),
            final(self).spec_size() == old(self).spec_size(),
            x < old(self).spec_size() && y < old(self).spec_size() && z < old(self).spec_size()
                ==> r == Ok::<(), GridError>(()) && final(self)@ == old(self)@.update(
                grid_index(old(self).spec_size(), x as int, y as int, z as int),
                value,
            ),
            !(x < old(self).spec_size() && y < old(self).spec_size() && z < old(
                self,
            ).spec_size()) ==> r == Err::<(), GridError>(GridError::OutOfRange) && *final(self)
                == *old(self),
    {
        if x >= self.size || y >= self.size || z >= self.size {
            return Err(GridError::OutOfRange);
        }
        let index = self.get_index(x, y, z);
        self.data.set_bit(index, value);
        Ok(())
    }

    /// An independent copy of the packed occupancy bits.
    fn copy_bitvec(&self) -> (r: BitVec)
        requires
            self.wf(),
        ensures
            r.wf(),
            r@ == self@,
    {
        self.data.copy_bits()
    }

    /// Linear index of the cell on plane `axis == c` with orthogonal
    /// coordinates `(a, b)`.
    fn plane_cell_index(size: usize, dir: ShiftDirection, c: usize, a: usize, b: usize) -> (i:
        usize)
        requires
            1 <= size,
            c < size,
            a < size,
            b < size,
            cells(size as int) <= usize::MAX,
        ensures
            i == plane_cell(size as int, dir, c as int, a as int, b as int),
            i < cells(size as int),
    {
        proof {
            let s = size as int;
            lemma_plane_cell_props(s, dir, c as int, a as int, b as int);
            assert(s * s <= s * s * s && 0 <= b * s && 0 <= c * s && 0 <= a * s && 0 <= a * (s * s)
                && 0 <= c * (s * s) && c + b * s + a * (s * s) == grid_index(
                s,
                c as int,
                b as int,
                a as int,
            ) && b + c * s + a * (s * s) == grid_index(s, b as int, c as int, a as int) && b + a * s
                + c * (s * s) == grid_index(s, b as int, a as int, c as int)) by (nonlinear_arith)
                requires
                    1 <= s,
                    0 <= a < s,
                    0 <= b < s,
                    0 <= c < s,
            ;
        }
        let area: usize = size * size;
        match dir {
            ShiftDirection::Left | ShiftDirection::Right => c + b * size + a * area,
            ShiftDirection::Top | ShiftDirection::Bottom => b + c * size + a * area,
            ShiftDirection::Front | ShiftDirection::Back => b + a * size + c * area,
        }
    }

    /// Overwrite the plane that a move along `dir` exposes with the
    /// neighbor's boundary layer — or with open space when there is no
    /// neighbor.  A plain linear shift smears bits across row and plane
    /// seams; this correction is what makes the shift mean "one cell of
    /// travel" on every cell, so it is mandatory, not an optimization.
    fn reset_values_for(&self, slice: &mut BitVec, dir: ShiftDirection, neighbor: &Option<BitVec>)
        requires
            self.wf(),
            old(slice).wf(),
            old(slice)@.len() == cells(self.spec_size()),
            neighbor matches Some(l) ==> l.wf() && l@.len() == self.spec_size() * self.spec_size(),
        ensures
            final(slice).wf(),
            final(slice)@.len() == cells(self.spec_size()),
            forall|i: int|
                0 <= i < cells(self.spec_size()) ==> final(slice)@[i] == if on_exposed_plane(
                    self.spec_size(),
                    dir,
                    i,
                ) {
                    layer_bit(layer_view(*neighbor), self.spec_size(), dir, i)
                } else {
                    old(slice)@[i]
                },
    {
        let size: usize = self.size;
        proof {
            let s = size as int;
            assert(s * s <= s * s * s) by (nonlinear_arith)
                requires
                    1 <= s,
            ;
        }
        let area: usize = size * size;
        let c: usize = match dir {
            ShiftDirection::Front | ShiftDirection::Left | ShiftDirection::Top => size - 1,
            _ => 0,
        };
        let ghost s = self.spec_size();
        let mut t: usize = 0;
        while t < area
            invariant
                t <= area,
                1 <= size,
                s == size as int,
                s == self.spec_size(),
                area == s * s,
                cells(s) <= usize::MAX,
                c == exposed_coord(s, dir),
                slice.wf(),
                slice@.len() == cells(s),
                old(slice)@.len() == cells(s),
                neighbor matches Some(l) ==> l.wf() && l@.len() == area,
                splice_partial(s, dir, layer_view(*neighbor), old(slice)@, slice@, t as int),
            decreases area - t,
        {
            let a: usize = t / size;
            let b: usize = t % size;
            proof {
                lemma_mod_bound(t as int, s);
                lemma_div_pos_is_pos(t as int, s);
                lemma_multiply_divide_lt(t as int, s, s);
                lemma_fundamental_div_mod(t as int, s);
                assert(s * (t as int / s) == (t as int / s) * s) by (nonlinear_arith);
                lemma_plane_cell_props(s, dir, c as int, a as int, b as int);
            }
            let idx: usize = Self::plane_cell_index(size, dir, c, a, b);
            let value: bool = match neighbor {
                Some(l) => l.get_bit(t),
                None => false,
            };
            let ghost prev = slice@;
            slice.set_bit(idx, value);
            proof {
                assert(splice_partial(s, dir, layer_view(*neighbor), old(slice)@, prev, t as int));
                assert(value == layer_bit(layer_view(*neighbor), s, dir, idx as int));
                assert forall|i: int| 0 <= i < cells(s) implies slice@[i] == (if on_exposed_plane(
                    s,
                    dir,
                    i,
                ) && layer_index(s, dir, i) < t + 1 {
                    layer_bit(layer_view(*neighbor), s, dir, i)
                } else {
                    old(slice)@[i]
                }) by {
                    if i == idx as int {
                        assert(on_exposed_plane(s, dir, i));
                        assert(layer_index(s, dir, i) == t);
                        assert(slice@[i] == value);
                        assert(slice@[i] == layer_bit(layer_view(*neighbor), s, dir, i));
                    } else {
                        assert(slice@[i] == prev[i]);
                        if on_exposed_plane(s, dir, i) && layer_index(s, dir, i) == t {
                            lemma_plane_reconstruct(s, dir, i);
                            assert(plane_cell(s, dir, c as int, t as int / s, t as int % s) == i);
                            assert(false);
                        }
                        assert(prev[i] == if on_exposed_plane(s, dir, i) && layer_index(s, dir, i)
                            < t {
                            layer_bit(layer_view(*neighbor), s, dir, i)
                        } else {
                            old(slice)@[i]
                        });
                    }
                }
                assert(splice_partial(
                    s,
                    dir,
                    layer_view(*neighbor),
                    old(slice)@,
                    slice@,
                    t + 1 as int,
                ));
            }
            t = t + 1;
        }
        proof {
            assert forall|i: int| 0 <= i < cells(s) implies on_exposed_plane(s, dir, i)
                ==> layer_index(s, dir, i) < area by {
                lemma_plane_reconstruct(s, dir, i);
            }
        }
    }

    /// A copy of the grid in which every bit has moved one cell along
    /// `shift_direction`: cell `i` of the result holds the occupancy of the
    /// cell one step along that direction, taken from this grid when the
    /// step stays inside it and from the matching neighbor layer — open
    /// space if that layer is absent — when it does not.
    pub fn get_shifted(&self, shift_direction: &ShiftDirection, neighbors: &Vec<Option<BitVec>>)
        -> (r: BitVec)
        requires
            self.wf(),
            neighbors_ok(self.spec_size(), neighbors@),
        ensures
            r.wf(),
            r@ == shifted_grid(
                self@,
                self.spec_size(),
                *shift_direction,
                layer_view(neighbors@[shift_direction.number()]),
            ),
    {
        let dir: ShiftDirection = *shift_direction;
        let mut slice = self.copy_bitvec();
        let size: usize = self.size;
        proof {
            let s = self.spec_size();
            assert(1 <= cells(s) && s <= cells(s) && s * s <= cells(s)) by (nonlinear_arith)
                requires
                    1 <= s,
            ;
        }
        let area: usize = size * size;
        match dir {
            ShiftDirection::Front => slice.shift_left(area),
            ShiftDirection::Back => slice.shift_right(area),
            ShiftDirection::Left => slice.shift_left(1),
            ShiftDirection::Right => slice.shift_right(1),
            ShiftDirection::Top => slice.shift_left(size),
            ShiftDirection::Bottom => slice.shift_right(size),
        }
        let ghost mid = slice@;
        let nb: &Option<BitVec> = &neighbors[dir.to_number()];
        self.reset_values_for(&mut slice, dir, nb);
        proof {
            let s = self.spec_size();
            let layer = layer_view(neighbors@[dir.number()]);
            assert forall|i: int| 0 <= i < cells(s) implies slice@[i] == shifted_bit(
                self@,
                s,
                dir,
                layer,
                i,
            ) by {
                lemma_coords_reconstruct(s, i);
                if !on_exposed_plane(s, dir, i) {
                    lemma_step(s, dir, i);
                }
            }
            assert(slice@ =~= shifted_grid(self@, s, dir, layer));
        }
        slice
    }

    /// The bitset of cells whose face toward `shift_direction` is
    /// externally visible: the cell is solid and whatever lies one step
    /// along that direction — in this grid or in the neighbor layer — is
    /// not.  Computed as `(shifted xor occupancy) and occupancy`.
    pub fn compare_shifted(&self, shift_direction: ShiftDirection, neighbors: &Vec<
        Option<BitVec>,
    >) -> (r: BitVec)
        requires
            self.wf(),
            neighbors_ok(self.spec_size(), neighbors@),
        ensures
            r.wf(),
            r@ == visible_grid(
                self@,
                self.spec_size(),
                shift_direction,
                layer_view(neighbors@[shift_direction.number()]),
            ),
    {
        let mut shifted = self.get_shifted(&shift_direction, neighbors);
        let ghost sh0 = shifted@;
        shifted.xor_with(&self.data);
        let ghost sh1 = shifted@;
        shifted.and_with(&self.data);
        proof {
            let s = self.spec_size();
            let layer = layer_view(neighbors@[shift_direction.number()]);
            assert(self.data@ == self@);
            assert forall|i: int| 0 <= i < cells(s) implies shifted@[i] == visible_bit(
                self@,
                s,
                shift_direction,
                layer,
                i,
            ) by {
                assert(sh0[i] == shifted_bit(self@, s, shift_direction, layer, i));
                assert(sh1[i] == (sh0[i] != self@[i]));
                assert(shifted@[i] == (sh1[i] && self@[i]));
            }
            assert(shifted@ =~= visible_grid(self@, s, shift_direction, layer));
        }
        shifted
    }

    /// The six visible-face bitsets, one per direction in code order.
    pub fn get_faces(&self, neighbors: Vec<Option<BitVec>>) -> (r: Vec<BitVec>)
        requires
            self.wf(),
            neighbors_ok(self.spec_size(), neighbors@),
        ensures
            r@.len() == 6,
            forall|d: int|
                0 <= d < 6 ==> (#[trigger] r@[d]).wf() && r@[d]@ == visible_grid(
                    self@,
                    self.spec_size(),
                    dir_of_number(d),
                    layer_view(neighbors@[d]),
                ),
    {
        let mut r: Vec<BitVec> = Vec::new();
        r.push(self.compare_shifted(ShiftDirection::Front, &neighbors));
        r.push(self.compare_shifted(ShiftDirection::Back, &neighbors));
        r.push(self.compare_shifted(ShiftDirection::Left, &neighbors));
        r.push(self.compare_shifted(ShiftDirection::Right, &neighbors));
        r.push(self.compare_shifted(ShiftDirection::Top, &neighbors));
        r.push(self.compare_shifted(ShiftDirection::Bottom, &neighbors));
        r
    }

    /// The occupancy plane of this grid that a chunk looking along `dir` at
    /// it sees as its neighbor's near face.
    pub fn boundary_layer(&self, dir: ShiftDirection) -> (r: BitVec)
        requires
            self.wf(),
        ensures
            r.wf(),
            r@ == boundary_layer_spec(self@, self.spec_size(), dir),
    {
        let size: usize = self.size;
        proof {
            let s = size as int;
            assert(s * s <= s * s * s) by (nonlinear_arith)
                requires
                    1 <= s,
            ;
        }
        let area: usize = size * size;
        let c: usize = match dir {
            ShiftDirection::Front | ShiftDirection::Left | ShiftDirection::Top => 0,
            _ => size - 1,
        };
        let ghost s = self.spec_size();
        let mut r = BitVec::new(area);
        let mut t: usize = 0;
        while t < area
            invariant
                t <= area,
                1 <= size,
                s == size as int,
                s == self.spec_size(),
                area == s * s,
                cells(s) <= usize::MAX,
                c == near_coord(s, dir),
                self.wf(),
                r.wf(),
                r@.len() == area,
                forall|j: int| 0 <= j < t ==> r@[j] == boundary_layer_spec(self@, s, dir)[j],
            decreases area - t,
        {
            let a: usize = t / size;
            let b: usize = t % size;
            proof {
                lemma_mod_bound(t as int, s);
                lemma_div_pos_is_pos(t as int, s);
                lemma_multiply_divide_lt(t as int, s, s);
            }
            let idx: usize = Self::plane_cell_index(size, dir, c, a, b);
            proof {
                assert(self.data@ == self@);
            }
            let value: bool = self.data.get_bit(idx);
            r.set_bit(t, value);
            t = t + 1;
        }
        proof {
            assert(r@ =~= boundary_layer_spec(self@, s, dir));
        }
        r
    }
}

} // verus!

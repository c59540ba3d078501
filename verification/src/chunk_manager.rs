//! The chunk collection: coordinate-keyed lookup, neighbor resolution, and
//! the chunk lifecycle.
//!
//! Chunks are held in one owned collection and found by their integer
//! coordinate; adjacency is resolved by lookup and by copying boundary
//! layers out, never by cross-references between chunks.  Initialization
//! populates queued chunks and computes faces for a bounded batch per call.

use crate::array3d::{
    boundary_layer_spec, cells, coord_x, coord_y, dir_of_number, grid_index, layer_view,
    neighbors_ok, on_exposed_plane, visible_grid, ShiftDirection,
};
use crate::bitvec::BitVec;
use crate::chunk::{Chunk, ChunkPos, ChunkStatus, CHUNK_SIZE};
use vstd::prelude::*;

verus! {

/// How many chunks one `initialize_chunks` call may activate.
pub const INIT_BATCH: usize = 128;

/// Coordinates that leave room for one step in every direction.
pub open spec fn pos_in_bounds(p: ChunkPos) -> bool {
    &&& i32::MIN < p.x < i32::MAX
    &&& i32::MIN < p.y < i32::MAX
    &&& i32::MIN < p.z < i32::MAX
}

/// The coordinate of the chunk one step along `dir` from `p`.
pub open spec fn neighbor_pos(p: ChunkPos, dir: ShiftDirection) -> ChunkPos {
    ChunkPos {
        x: (p.x + dir.offset().0) as i32,
        y: (p.y + dir.offset().1) as i32,
        z: (p.z + dir.offset().2) as i32,
    }
}

/// The first index holding a chunk at `p`, scanning from the front.
pub open spec fn find_chunk(chunks: Seq<Chunk>, p: ChunkPos) -> Option<int>
    decreases chunks.len(),
{
    if chunks.len() == 0 {
        None
    } else if chunks[0].position == p {
        Some(0int)
    } else {
        match find_chunk(chunks.drop_first(), p) {
            Some(k) => Some(k + 1),
            None => None,
        }
    }
}

/// What `find_chunk` answers: the first match, or proof there is none.
pub proof fn lemma_find_chunk(chunks: Seq<Chunk>, p: ChunkPos)
    ensures
        match find_chunk(chunks, p) {
            Some(k) => 0 <= k < chunks.len() && chunks[k].position == p && forall|m: int|
                0 <= m < k ==> (#[trigger] chunks[m]).position != p,
            None => forall|m: int| 0 <= m < chunks.len() ==> (#[trigger] chunks[m]).position != p,
        },
    decreases chunks.len(),
{
    if chunks.len() != 0 && chunks[0].position != p {
        lemma_find_chunk(chunks.drop_first(), p);
        match find_chunk(chunks.drop_first(), p) {
            Some(k) => {
                assert(chunks.drop_first()[k] == chunks[k + 1]);
                assert forall|m: int| 0 <= m < k + 1 implies (#[trigger] chunks[m]).position
                    != p by {
                    if m >= 1 {
                        assert(chunks[m] == chunks.drop_first()[m - 1]);
                    }
                }
            },
            None => {
                assert forall|m: int| 0 <= m < chunks.len() implies (#[trigger] chunks[m]).position
                    != p by {
                    if m >= 1 {
                        assert(chunks[m] == chunks.drop_first()[m - 1]);
                    }
                }
            },
        }
    }
}

/// `find_chunk` reads only the chunks' positions.
pub proof fn lemma_find_chunk_positions(c1: Seq<Chunk>, c2: Seq<Chunk>, p: ChunkPos)
    requires
        c1.len() == c2.len(),
        forall|m: int| 0 <= m < c1.len() ==> (#[trigger] c1[m]).position == c2[m].position,
    ensures
        find_chunk(c1, p) == find_chunk(c2, p),
    decreases c1.len(),
{
    if c1.len() != 0 {
        assert forall|m: int| 0 <= m < c1.len() - 1 implies (#[trigger] c1.drop_first()[m]).position
            == c2.drop_first()[m].position by {
            assert(c1[m + 1].position == c2[m + 1].position);
        }
        lemma_find_chunk_positions(c1.drop_first(), c2.drop_first(), p);
    }
}

/// Whether some chunk in the collection sits at `p`.
pub open spec fn has_chunk_at(chunks: Seq<Chunk>, p: ChunkPos) -> bool {
    exists|k: int| 0 <= k < chunks.len() && (#[trigger] chunks[k]).position == p
}

/// The six optional neighbor boundary layers around `p`, as bit sequences:
/// slot `d` holds the near plane of the chunk one step along the direction
/// numbered `d`, or `None` when no chunk sits there.
pub open spec fn neighbor_layer_views(chunks: Seq<Chunk>, p: ChunkPos) -> Seq<Option<Seq<bool>>> {
    Seq::new(
        6,
        |d: int|
            match find_chunk(chunks, neighbor_pos(p, dir_of_number(d))) {
                Some(k) => Some(
                    boundary_layer_spec(chunks[k].block_data@, CHUNK_SIZE as int, dir_of_number(d)),
                ),
                None => None,
            },
    )
}

/// Whether chunk `m`'s stored face bitsets agree with its occupancy and
/// the neighbor layers the collection currently offers it.
pub open spec fn faces_current(chunks: Seq<Chunk>, m: int) -> bool {
    forall|d: int|
        0 <= d < 6 ==> (#[trigger] chunks[m].faces@[d])@ == visible_grid(
            chunks[m].block_data@,
            CHUNK_SIZE as int,
            dir_of_number(d),
            neighbor_layer_views(chunks, chunks[m].position)[d],
        )
}

/// The test-world occupancy pattern: cells on the four x/y walls are solid.
pub open spec fn wall_pattern(i: int) -> bool {
    coord_x(16, i) == 0 || coord_x(16, i) == 15 || coord_y(16, i) == 0 || coord_y(16, i) == 15
}

/// An occupancy sequence with the wall pattern drawn over `orig`.
pub open spec fn filled_grid(orig: Seq<bool>) -> Seq<bool> {
    Seq::new(cells(16) as nat, |i: int| orig[i] || wall_pattern(i))
}

/// The partially drawn pattern: cells below `t` already carry it.
spec fn fill_partial(orig: Seq<bool>, cur: Seq<bool>, t: int) -> bool {
    forall|i: int| 0 <= i < cells(16) ==> (#[trigger] cur[i]) == (orig[i] || (wall_pattern(i) && i < t))
}

/// Whether a chunk still awaits its first face computation.
pub open spec fn pending(c: Chunk) -> bool {
    c.status == ChunkStatus::Queued || c.status == ChunkStatus::Initialized
}

/// How many of the first `upto` chunks await their first face computation.
pub open spec fn count_pending(chunks: Seq<Chunk>, upto: int) -> int
    decreases upto,
{
    if upto <= 0 {
        0
    } else {
        count_pending(chunks, upto - 1) + if pending(chunks[upto - 1]) {
            1int
        } else {
            0int
        }
    }
}

/// A chunk coordinate built from the center and an offset triple.
pub open spec fn offset_pos(center: ChunkPos, ax: int, ay: int, az: int) -> ChunkPos {
    ChunkPos {
        x: (center.x + ax) as i32,
        y: (center.y + ay) as i32,
        z: (center.z + az) as i32,
    }
}

/// A center that keeps every coordinate within `vd` of it — and one more
/// step beyond — inside `i32`.
pub open spec fn center_ok(center: ChunkPos, vd: int) -> bool {
    &&& i32::MIN + vd < center.x < i32::MAX - vd
    &&& i32::MIN + vd < center.y < i32::MAX - vd
    &&& i32::MIN + vd < center.z < i32::MAX - vd
}

/// A chunk fresh out of `Chunk::new`: queued, empty, faceless.
pub open spec fn fresh_chunk(c: Chunk) -> bool {
    &&& c.wf()
    &&& c.status == ChunkStatus::Queued
    &&& c.face_count == 0
    &&& c.instances@.len() == 0
    &&& forall|i: int| 0 <= i < cells(16) ==> !(#[trigger] c.block_data@[i])
}

/// The chunk's offset from `center` lies in the view ball and — read
/// lexicographically by z, then y, then x — before the triple
/// `(dz, dy, dx)`.
pub open spec fn rel_before(
    center: ChunkPos,
    vd: int,
    dz: int,
    dy: int,
    dx: int,
    c: Chunk,
) -> bool {
    let ax = c.position.x - center.x;
    let ay = c.position.y - center.y;
    let az = c.position.z - center.z;
    &&& -vd <= ax <= vd
    &&& -vd <= ay <= vd
    &&& -vd <= az <= vd
    &&& ax * ax + ay * ay + az * az <= vd * vd
    &&& (az < dz || (az == dz && (ay < dy || (ay == dy && ax < dx))))
}

/// Every in-ball offset triple lexicographically before `(dz, dy, dx)`
/// already has its chunk in the collection.
pub open spec fn ball_covered(
    r: Seq<Chunk>,
    center: ChunkPos,
    vd: int,
    dz: int,
    dy: int,
    dx: int,
) -> bool {
    forall|az: int, ay: int, ax: int|
        -vd <= ax <= vd && -vd <= ay <= vd && -vd <= az <= vd && ax * ax + ay * ay + az * az <= vd
            * vd && (az < dz || (az == dz && (ay < dy || (ay == dy && ax < dx))))
            ==> #[trigger] has_chunk_at(r, offset_pos(center, ax, ay, az))
}

/// A chunk present in a prefix is present in the grown collection.
proof fn lemma_has_chunk_grow(r1: Seq<Chunk>, r2: Seq<Chunk>, p: ChunkPos)
    requires
        r1.len() <= r2.len(),
        forall|k: int| 0 <= k < r1.len() ==> r2[k] == r1[k],
        has_chunk_at(r1, p),
    ensures
        has_chunk_at(r2, p),
{
    let k = choose|k: int| 0 <= k < r1.len() && (#[trigger] r1[k]).position == p;
    assert(r2[k].position == p);
}

/// The earlier of two prefixes never counts more pending chunks.
pub proof fn lemma_count_pending_mono(s: Seq<Chunk>, a: int, b: int)
    requires
        a <= b,
    ensures
        count_pending(s, a) <= count_pending(s, b),
    decreases b - a,
{
    if a < b {
        lemma_count_pending_mono(s, a, b - 1);
    }
}

/// Collections that agree on which chunks are pending count alike.
pub proof fn lemma_count_pending_same(c1: Seq<Chunk>, c2: Seq<Chunk>, upto: int)
    requires
        forall|m: int| 0 <= m < upto ==> pending(#[trigger] c1[m]) == pending(c2[m]),
    ensures
        count_pending(c1, upto) == count_pending(c2, upto),
    decreases upto,
{
    if upto > 0 {
        lemma_count_pending_same(c1, c2, upto - 1);
    }
}

/// Removing an element and putting another back in its place is a plain
/// update.
proof fn lemma_remove_insert(s: Seq<Chunk>, k: int, v: Chunk)
    requires
        0 <= k < s.len(),
    ensures
        s.remove(k).insert(k, v) =~= s.update(k, v),
{
}

/// The neighbor layers around `p` read only positions and occupancy, so
/// they survive any change that keeps both.
pub proof fn lemma_layers_same(c1: Seq<Chunk>, c2: Seq<Chunk>, p: ChunkPos)
    requires
        c1.len() == c2.len(),
        forall|m: int|
            0 <= m < c1.len() ==> (#[trigger] c1[m]).position == c2[m].position
                && c1[m].block_data@ == c2[m].block_data@,
    ensures
        neighbor_layer_views(c1, p) == neighbor_layer_views(c2, p),
{
    assert forall|d: int| 0 <= d < 6 implies neighbor_layer_views(c1, p)[d]
        == neighbor_layer_views(c2, p)[d] by {
        lemma_find_chunk_positions(c1, c2, neighbor_pos(p, dir_of_number(d)));
        lemma_find_chunk(c1, neighbor_pos(p, dir_of_number(d)));
    }
    assert(neighbor_layer_views(c1, p) =~= neighbor_layer_views(c2, p));
}

/// What populating a queued chunk's voxel data does to it: the wall
/// pattern is drawn, the status advances to `Initialized`, everything else
/// stays; chunks not queued stay whole.
pub open spec fn populated(oldc: Chunk, newc: Chunk) -> bool {
    if oldc.status == ChunkStatus::Queued {
        &&& newc.block_data@ == filled_grid(oldc.block_data@)
        &&& newc.block_data.spec_size() == oldc.block_data.spec_size()
        &&& newc.status == ChunkStatus::Initialized
        &&& newc.faces == oldc.faces
        &&& newc.face_count == oldc.face_count
        &&& newc.instances == oldc.instances
        &&& newc.position == oldc.position
        &&& newc.metadata == oldc.metadata
    } else {
        newc == oldc
    }
}

/// Whether the refresh after an edit of `cell` in the chunk at `p`
/// touches chunk `m`: `m` is a loaded neighbor behind one of the boundary
/// planes the cell lies on, looking along a direction numbered below `d`.
pub open spec fn edit_touches_upto(
    chunks: Seq<Chunk>,
    p: ChunkPos,
    cell: int,
    d: int,
    m: int,
) -> bool {
    exists|dd: int|
        0 <= dd < d && on_exposed_plane(16, dir_of_number(dd), cell) && #[trigger] find_chunk(
            chunks,
            neighbor_pos(p, dir_of_number(dd)),
        ) == Some(m)
}

/// Whether the refresh after an edit of `cell` in the chunk at `p`
/// touches chunk `m` at all.
pub open spec fn edit_touches(chunks: Seq<Chunk>, p: ChunkPos, cell: int, m: int) -> bool {
    edit_touches_upto(chunks, p, cell, 6, m)
}

/// Whether chunk `m` sits one step from `p` along a direction numbered
/// below `d`.
pub open spec fn adjacent_upto(chunks: Seq<Chunk>, p: ChunkPos, d: int, m: int) -> bool {
    exists|dd: int|
        0 <= dd < d && #[trigger] find_chunk(chunks, neighbor_pos(p, dir_of_number(dd))) == Some(m)
}

/// Whether chunk `m` sits one step from `p` along some direction.
pub open spec fn adjacent_to(chunks: Seq<Chunk>, p: ChunkPos, m: int) -> bool {
    adjacent_upto(chunks, p, 6, m)
}

/// The indices of the chunks worth drawing, in collection order: active
/// and with at least one visible face.
pub open spec fn visible_indices(chunks: Seq<Chunk>, upto: int) -> Seq<usize>
    decreases upto,
{
    if upto <= 0 {
        Seq::empty()
    } else {
        visible_indices(chunks, upto - 1) + if chunks[upto - 1].status == ChunkStatus::Active
            && chunks[upto - 1].face_count != 0 {
            seq![(upto - 1) as usize]
        } else {
            Seq::empty()
        }
    }
}

/// The owned collection of chunks, keyed by their coordinates.
pub struct ChunkManager {
    /// Every loaded chunk; positions are unique.
    pub chunks: Vec<Chunk>,
    /// The collection's center coordinate.
    pub position: ChunkPos,
    /// How far out from the center chunks are created.
    pub view_distance: i32,
}

impl ChunkManager {
    /// A coherent collection: every chunk intact, every coordinate with
    /// room for a one-step neighbor, no coordinate taken twice.
    pub open spec fn wf(self) -> bool {
        &&& forall|k: int| 0 <= k < self.chunks@.len() ==> (#[trigger] self.chunks@[k]).wf()
        &&& forall|k: int|
            0 <= k < self.chunks@.len() ==> pos_in_bounds((#[trigger] self.chunks@[k]).position)
        &&& forall|k1: int, k2: int|
            #![trigger self.chunks@[k1].position, self.chunks@[k2].position]
            0 <= k1 < k2 < self.chunks@.len() ==> self.chunks@[k1].position
                != self.chunks@[k2].position
    }

    /// The coordinate one step along `dir` from `p`.
    fn neighbor_position(p: ChunkPos, dir: ShiftDirection) -> (r: ChunkPos)
        requires
            pos_in_bounds(p),
        ensures
            r == neighbor_pos(p, dir),
    {
        match dir {
            ShiftDirection::Front => ChunkPos { x: p.x, y: p.y, z: p.z + 1 },
            ShiftDirection::Back => ChunkPos { x: p.x, y: p.y, z: p.z - 1 },
            ShiftDirection::Left => ChunkPos { x: p.x + 1, y: p.y, z: p.z },
            ShiftDirection::Right => ChunkPos { x: p.x - 1, y: p.y, z: p.z },
            ShiftDirection::Top => ChunkPos { x: p.x, y: p.y + 1, z: p.z },
            ShiftDirection::Bottom => ChunkPos { x: p.x, y: p.y - 1, z: p.z },
        }
    }

    /// The index of the chunk at `p`, if one is loaded.
    fn find_chunk_index(&self, p: ChunkPos) -> (r: Option<usize>)
        ensures
            match r {
                Some(k) => find_chunk(self.chunks@, p) == Some(k as int),
                None => find_chunk(self.chunks@, p) is None,
            },
    {
        proof {
            lemma_find_chunk(self.chunks@, p);
        }
        let n: usize = self.chunks.len();
        let mut k: usize = 0;
        while k < n
            invariant
                k <= n,
                n == self.chunks@.len(),
                forall|m: int| 0 <= m < k ==> (#[trigger] self.chunks@[m]).position != p,
            decreases n - k,
        {
            if self.chunks[k].position == p {
                proof {
                    lemma_find_chunk(self.chunks@, p);
                }
                return Some(k);
            }
            k = k + 1;
        }
        None
    }

    /// Gather the six optional neighbor boundary layers around
    /// `chunk_position`: for each direction, the near-face occupancy plane
    /// of the adjacent chunk, or `None` where none is loaded — a valid,
    /// common state meaning nothing occludes from that side.
    pub fn get_neighbors(&self, chunk_position: ChunkPos) -> (r: Vec<Option<BitVec>>)
        requires
            self.wf(),
            pos_in_bounds(chunk_position),
        ensures
            neighbors_ok(CHUNK_SIZE as int, r@),
            forall|d: int|
                0 <= d < 6 ==> layer_view(#[trigger] r@[d]) == neighbor_layer_views(
                    self.chunks@,
                    chunk_position,
                )[d],
    {
        let mut r: Vec<Option<BitVec>> = Vec::new();
        let mut d: usize = 0;
        while d < 6
            invariant
                d <= 6,
                self.wf(),
                pos_in_bounds(chunk_position),
                r@.len() == d,
                forall|m: int|
                    0 <= m < d ==> (#[trigger] r@[m] matches Some(l) ==> l.wf() && l@.len()
                        == CHUNK_SIZE * CHUNK_SIZE),
                forall|m: int|
                    0 <= m < d ==> layer_view(#[trigger] r@[m]) == neighbor_layer_views(
                        self.chunks@,
                        chunk_position,
                    )[m],
            decreases 6 - d,
        {
            let dir = match ShiftDirection::from_number(d) {
                Ok(dir) => dir,
                Err(_) => unreached(),
            };
            proof {
                assert(dir == dir_of_number(d as int));
            }
            let npos = Self::neighbor_position(chunk_position, dir);
            match self.find_chunk_index(npos) {
                Some(k) => {
                    proof {
                        lemma_find_chunk(self.chunks@, npos);
                    }
                    let layer = self.chunks[k].block_data.boundary_layer(dir);
                    r.push(Some(layer));
                },
                None => {
                    r.push(None);
                },
            }
            d = d + 1;
        }
        r
    }

    /// Draw the test-world occupancy into a chunk: every cell on one of
    /// the four x/y walls becomes solid, every other cell keeps its bit.
    fn initialize_chunk(chunk: &mut Chunk)
        requires
            old(chunk).wf(),
        ensures
            final(chunk).wf(),
            final(chunk).block_data@ == filled_grid(old(chunk).block_data@),
            final(chunk).block_data.spec_size() == old(chunk).block_data.spec_size(),
            final(chunk).faces == old(chunk).faces,
            final(chunk).face_count == old(chunk).face_count,
            final(chunk).instances == old(chunk).instances,
            final(chunk).position == old(chunk).position,
            final(chunk).metadata == old(chunk).metadata,
            final(chunk).status == old(chunk).status,
    {
        let volume: usize = CHUNK_SIZE * CHUNK_SIZE * CHUNK_SIZE;
        let mut t: usize = 0;
        while t < volume
            invariant
                t <= volume,
                volume == cells(16),
                chunk.wf(),
                chunk.block_data.spec_size() == CHUNK_SIZE,
                fill_partial(old(chunk).block_data@, chunk.block_data@, t as int),
                chunk.faces == old(chunk).faces,
                chunk.face_count == old(chunk).face_count,
                chunk.instances == old(chunk).instances,
                chunk.position == old(chunk).position,
                chunk.metadata == old(chunk).metadata,
                chunk.status == old(chunk).status,
            decreases volume - t,
        {
            let x: usize = t % 16;
            let y: usize = (t / 16) % 16;
            let z: usize = t / 256;
            proof {
                crate::array3d::lemma_coords_reconstruct(16, t as int);
            }
            let ghost prev = chunk.block_data@;
            if x == 0 || y == 0 || x == 15 || y == 15 {
                let _ = chunk.block_data.set(x, y, z, true);
            }
            proof {
                assert(fill_partial(old(chunk).block_data@, prev, t as int));
                assert(chunk.block_data@ == if wall_pattern(t as int) {
                    prev.update(t as int, true)
                } else {
                    prev
                });
                assert(fill_partial(old(chunk).block_data@, chunk.block_data@, t + 1 as int));
            }
            t = t + 1;
        }
        proof {
            assert(chunk.block_data@ =~= filled_grid(old(chunk).block_data@));
        }
    }

    /// Recompute the faces of the chunk at `index` from its occupancy and
    /// the neighbors currently loaded.  Only that chunk's faces, instances
    /// and face count change; every grid, position and status stays.
    pub fn update_faces(&mut self, index: usize)
        requires
            old(self).wf(),
            index < old(self).chunks@.len(),
        ensures
            final(self).wf(),
            final(self).chunks@.len() == old(self).chunks@.len(),
            final(self).position == old(self).position,
            final(self).view_distance == old(self).view_distance,
            forall|m: int|
                0 <= m < old(self).chunks@.len() ==> (#[trigger] final(self).chunks@[m]).position
                    == old(self).chunks@[m].position && final(self).chunks@[m].block_data
                    == old(self).chunks@[m].block_data && final(self).chunks@[m].status
                    == old(self).chunks@[m].status,
            forall|m: int|
                0 <= m < old(self).chunks@.len() && m != index
                    ==> (#[trigger] final(self).chunks@[m]) == old(self).chunks@[m],
            faces_current(final(self).chunks@, index as int),
    {
        let pos = self.chunks[index].position;
        let neighbors = self.get_neighbors(pos);
        let ghost pre = self.chunks@;
        let mut c = self.chunks.remove(index);
        c.update_faces(neighbors);
        self.chunks.insert(index, c);
        proof {
            lemma_remove_insert(pre, index as int, c);
            assert(self.chunks@ == pre.update(index as int, c));
            assert forall|k1: int, k2: int|
                #![trigger self.chunks@[k1].position, self.chunks@[k2].position]
                0 <= k1 < k2 < self.chunks@.len() implies self.chunks@[k1].position
                != self.chunks@[k2].position by {
                assert(self.chunks@[k1].position == pre[k1].position);
                assert(self.chunks@[k2].position == pre[k2].position);
            }
            lemma_layers_same(pre, self.chunks@, pos);
        }
    }

    /// Apply one voxel edit and keep every affected culling result fresh:
    /// set cell `(x, y, z)` of the chunk at `chunk_position` to `value`,
    /// recompute that chunk's faces, and recompute the faces of each
    /// loaded chunk behind a boundary plane the cell lies on — the chunks
    /// whose culling reads the edited cell through their neighbor layer.
    ///
    /// Returns `Ok(true)` after an edit, `Ok(false)` — changing nothing —
    /// when no chunk is loaded at `chunk_position`, and `OutOfRange` —
    /// changing nothing — when a coordinate reaches past the cube's side.
    #[verifier::rlimit(100)]
    pub fn set_block(
        &mut self,
        chunk_position: ChunkPos,
        x: usize,
        y: usize,
        z: usize,
        value: bool,
    ) -> (r: Result<bool, crate::GridError>)
        requires
            old(self).wf(),
        ensures
            final(self).wf(),
            final(self).chunks@.len() == old(self).chunks@.len(),
            final(self).position == old(self).position,
            final(self).view_distance == old(self).view_distance,
            forall|m: int|
                0 <= m < old(self).chunks@.len() ==> (#[trigger] final(self).chunks@[m]).position
                    == old(self).chunks@[m].position && final(self).chunks@[m].status
                    == old(self).chunks@[m].status,
            !(x < CHUNK_SIZE && y < CHUNK_SIZE && z < CHUNK_SIZE) ==> r == Err::<
                bool,
                crate::GridError,
            >(crate::GridError::OutOfRange) && *final(self) == *old(self),
            x < CHUNK_SIZE && y < CHUNK_SIZE && z < CHUNK_SIZE && find_chunk(
                old(self).chunks@,
                chunk_position,
            ) is None ==> r == Ok::<bool, crate::GridError>(false) && *final(self) == *old(self),
            x < CHUNK_SIZE && y < CHUNK_SIZE && z < CHUNK_SIZE ==> (find_chunk(
                old(self).chunks@,
                chunk_position,
            ) matches Some(k) ==> {
                &&& r == Ok::<bool, crate::GridError>(true)
                &&& final(self).chunks@[k].block_data@
                    == old(self).chunks@[k].block_data@.update(
                    grid_index(16, x as int, y as int, z as int),
                    value,
                )
                &&& forall|m: int|
                    0 <= m < old(self).chunks@.len() && m != k
                        ==> (#[trigger] final(self).chunks@[m]).block_data@
                        == old(self).chunks@[m].block_data@
                &&& faces_current(final(self).chunks@, k)
                &&& forall|d: int, m: int|
                    #![trigger find_chunk(old(self).chunks@, neighbor_pos(chunk_position, dir_of_number(d))), faces_current(final(self).chunks@, m)]
                    0 <= d < 6 && on_exposed_plane(
                        16,
                        dir_of_number(d),
                        grid_index(16, x as int, y as int, z as int),
                    ) && find_chunk(
                        old(self).chunks@,
                        neighbor_pos(chunk_position, dir_of_number(d)),
                    ) == Some(m) ==> faces_current(final(self).chunks@, m)
                &&& forall|m: int|
                    0 <= m < old(self).chunks@.len() && m != k && !edit_touches(
                        old(self).chunks@,
                        chunk_position,
                        grid_index(16, x as int, y as int, z as int),
                        m,
                    ) ==> (#[trigger] final(self).chunks@[m]) == old(self).chunks@[m]
            }),
    {
        if x >= CHUNK_SIZE || y >= CHUNK_SIZE || z >= CHUNK_SIZE {
            return Err(crate::GridError::OutOfRange);
        }
        let k: usize = match self.find_chunk_index(chunk_position) {
            Some(k) => k,
            None => {
                return Ok(false);
            },
        };
        proof {
            lemma_find_chunk(self.chunks@, chunk_position);
        }
        let ghost orig = self.chunks@;
        let ghost cell = grid_index(16, x as int, y as int, z as int);
        let n: usize = self.chunks.len();
        let ghost pre = self.chunks@;
        let mut c = self.chunks.remove(k);
        let _ = c.block_data.set(x, y, z, value);
        self.chunks.insert(k, c);
        proof {
            lemma_remove_insert(pre, k as int, c);
            assert(self.chunks@ == pre.update(k as int, c));
            assert forall|k1: int, k2: int|
                #![trigger self.chunks@[k1].position, self.chunks@[k2].position]
                0 <= k1 < k2 < n implies self.chunks@[k1].position
                != self.chunks@[k2].position by {
                assert(self.chunks@[k1].position == pre[k1].position);
                assert(self.chunks@[k2].position == pre[k2].position);
            }
        }
        self.update_faces(k);
        let ghost base = self.chunks@;
        proof {
            crate::array3d::lemma_grid_index_coords(16, x as int, y as int, z as int);
        }
        let mut d: usize = 0;
        while d < 6
            invariant
                d <= 6,
                k < n,
                n == self.chunks@.len(),
                n == base.len(),
                n == orig.len(),
                self.wf(),
                self.position == old(self).position,
                self.view_distance == old(self).view_distance,
                cell == grid_index(16, x as int, y as int, z as int),
                x < 16,
                y < 16,
                z < 16,
                orig[k as int].position == chunk_position,
                pos_in_bounds(chunk_position),
                forall|m: int|
                    0 <= m < n ==> (#[trigger] base[m]).position == orig[m].position && base[m].status
                        == orig[m].status,
                forall|m: int| 0 <= m < n && m != k ==> (#[trigger] base[m]) == orig[m],
                base[k as int].block_data@ == orig[k as int].block_data@.update(cell, value),
                forall|m: int|
                    0 <= m < n ==> (#[trigger] self.chunks@[m]).position == base[m].position && self
                        .chunks@[m].block_data == base[m].block_data && self.chunks@[m].status
                        == base[m].status,
                self.chunks@[k as int] == base[k as int],
                faces_current(self.chunks@, k as int),
                forall|m: int|
                    0 <= m < n && edit_touches_upto(orig, chunk_position, cell, d as int, m)
                        ==> faces_current(self.chunks@, m),
                forall|m: int|
                    0 <= m < n && m != k && !edit_touches_upto(
                        orig,
                        chunk_position,
                        cell,
                        d as int,
                        m,
                    ) ==> (#[trigger] self.chunks@[m]) == base[m],
            decreases 6 - d,
        {
            let dir = match ShiftDirection::from_number(d) {
                Ok(dir) => dir,
                Err(_) => unreached(),
            };
            proof {
                assert(dir == dir_of_number(d as int));
            }
            let axis_c: usize = match dir {
                ShiftDirection::Left | ShiftDirection::Right => x,
                ShiftDirection::Top | ShiftDirection::Bottom => y,
                ShiftDirection::Front | ShiftDirection::Back => z,
            };
            let exposed: usize = match dir {
                ShiftDirection::Front | ShiftDirection::Left | ShiftDirection::Top => CHUNK_SIZE
                    - 1,
                _ => 0,
            };
            if axis_c == exposed {
                proof {
                    assert(on_exposed_plane(16, dir_of_number(d as int), cell));
                }
                let npos = Self::neighbor_position(chunk_position, dir);
                match self.find_chunk_index(npos) {
                    Some(m) => {
                        proof {
                            lemma_find_chunk(self.chunks@, npos);
                            lemma_find_chunk_positions(self.chunks@, orig, npos);
                            assert(npos != chunk_position);
                            assert(m != k);
                        }
                        let ghost before = self.chunks@;
                        self.update_faces(m);
                        proof {
                            assert forall|mm: int|
                                0 <= mm < n && (mm == k as int || edit_touches_upto(
                                    orig,
                                    chunk_position,
                                    cell,
                                    d as int,
                                    mm,
                                )) implies faces_current(self.chunks@, mm) by {
                                if mm != m {
                                    assert(self.chunks@[mm] == before[mm]);
                                    lemma_layers_same(before, self.chunks@, before[mm].position);
                                }
                            }
                            assert forall|mm: int|
                                0 <= mm < n && edit_touches_upto(
                                    orig,
                                    chunk_position,
                                    cell,
                                    d + 1,
                                    mm,
                                ) implies faces_current(self.chunks@, mm) by {
                                if !edit_touches_upto(orig, chunk_position, cell, d as int, mm) {
                                    assert(find_chunk(orig, neighbor_pos(chunk_position, dir))
                                        == Some(mm));
                                    assert(mm == m);
                                }
                            }
                        }
                    },
                    None => {
                        proof {
                            lemma_find_chunk_positions(self.chunks@, orig, npos);
                            assert forall|mm: int|
                                0 <= mm < n && edit_touches_upto(
                                    orig,
                                    chunk_position,
                                    cell,
                                    d + 1,
                                    mm,
                                ) implies edit_touches_upto(
                                orig,
                                chunk_position,
                                cell,
                                d as int,
                                mm,
                            ) by {}
                        }
                    },
                }
            } else {
                proof {
                    assert(!on_exposed_plane(16, dir_of_number(d as int), cell));
                    assert forall|mm: int|
                        0 <= mm < n && edit_touches_upto(
                            orig,
                            chunk_position,
                            cell,
                            d + 1,
                            mm,
                        ) implies edit_touches_upto(orig, chunk_position, cell, d as int, mm) by {}
                }
            }
            d = d + 1;
        }
        proof {
            assert forall|dd: int, m: int|
                #![trigger find_chunk(orig, neighbor_pos(chunk_position, dir_of_number(dd))), faces_current(self.chunks@, m)]
                0 <= dd < 6 && on_exposed_plane(16, dir_of_number(dd), cell) && find_chunk(
                    orig,
                    neighbor_pos(chunk_position, dir_of_number(dd)),
                ) == Some(m) implies faces_current(self.chunks@, m) by {
                lemma_find_chunk(orig, neighbor_pos(chunk_position, dir_of_number(dd)));
                assert(edit_touches_upto(orig, chunk_position, cell, 6, m));
            }
        }
        Ok(true)
    }

    /// Destroy the chunk at `chunk_position` and recompute the faces of
    /// the chunks that bordered it: from their side the space it occupied
    /// is now open, not an error.  Returns whether a chunk was removed.
    #[verifier::rlimit(50)]
    pub fn unload(&mut self, chunk_position: ChunkPos) -> (r: bool)
        requires
            old(self).wf(),
        ensures
            final(self).wf(),
            final(self).position == old(self).position,
            final(self).view_distance == old(self).view_distance,
            find_chunk(old(self).chunks@, chunk_position) is None ==> !r && *final(self)
                == *old(self),
            find_chunk(old(self).chunks@, chunk_position) matches Some(k) ==> {
                &&& r
                &&& final(self).chunks@.len() == old(self).chunks@.len() - 1
                &&& forall|m: int|
                    0 <= m < final(self).chunks@.len()
                        ==> (#[trigger] final(self).chunks@[m]).position
                        == old(self).chunks@.remove(k)[m].position
                        && final(self).chunks@[m].block_data
                        == old(self).chunks@.remove(k)[m].block_data
                        && final(self).chunks@[m].status
                        == old(self).chunks@.remove(k)[m].status
                &&& forall|d: int, m: int|
                    #![trigger find_chunk(final(self).chunks@, neighbor_pos(chunk_position, dir_of_number(d))), faces_current(final(self).chunks@, m)]
                    0 <= d < 6 && find_chunk(
                        final(self).chunks@,
                        neighbor_pos(chunk_position, dir_of_number(d)),
                    ) == Some(m) ==> faces_current(final(self).chunks@, m)
                &&& forall|m: int|
                    0 <= m < final(self).chunks@.len() && !adjacent_to(
                        final(self).chunks@,
                        chunk_position,
                        m,
                    ) ==> (#[trigger] final(self).chunks@[m]) == old(self).chunks@.remove(k)[m]
            },
    {
        let k: usize = match self.find_chunk_index(chunk_position) {
            Some(k) => k,
            None => {
                return false;
            },
        };
        proof {
            lemma_find_chunk(self.chunks@, chunk_position);
        }
        let ghost orig = self.chunks@;
        let _removed = self.chunks.remove(k);
        let ghost base = self.chunks@;
        let n: usize = self.chunks.len();
        proof {
            assert forall|k1: int, k2: int|
                #![trigger self.chunks@[k1].position, self.chunks@[k2].position]
                0 <= k1 < k2 < n implies self.chunks@[k1].position
                != self.chunks@[k2].position by {
                let o1: int = if k1 < k { k1 } else { k1 + 1 };
                let o2: int = if k2 < k { k2 } else { k2 + 1 };
                assert(self.chunks@[k1] == orig[o1]);
                assert(self.chunks@[k2] == orig[o2]);
            }
        }
        let mut d: usize = 0;
        while d < 6
            invariant
                d <= 6,
                n == self.chunks@.len(),
                n == base.len(),
                self.wf(),
                self.position == old(self).position,
                self.view_distance == old(self).view_distance,
                pos_in_bounds(chunk_position),
                forall|m: int|
                    0 <= m < n ==> (#[trigger] self.chunks@[m]).position == base[m].position
                        && self.chunks@[m].block_data == base[m].block_data && self.chunks@[m].status
                        == base[m].status,
                forall|m: int|
                    0 <= m < n && adjacent_upto(base, chunk_position, d as int, m)
                        ==> faces_current(self.chunks@, m),
                forall|m: int|
                    0 <= m < n && !adjacent_upto(base, chunk_position, d as int, m)
                        ==> (#[trigger] self.chunks@[m]) == base[m],
            decreases 6 - d,
        {
            let dir = match ShiftDirection::from_number(d) {
                Ok(dir) => dir,
                Err(_) => unreached(),
            };
            proof {
                assert(dir == dir_of_number(d as int));
            }
            let npos = Self::neighbor_position(chunk_position, dir);
            match self.find_chunk_index(npos) {
                Some(m) => {
                    proof {
                        lemma_find_chunk(self.chunks@, npos);
                        lemma_find_chunk_positions(self.chunks@, base, npos);
                    }
                    let ghost before = self.chunks@;
                    self.update_faces(m);
                    proof {
                        assert forall|mm: int|
                            0 <= mm < n && adjacent_upto(
                                base,
                                chunk_position,
                                d as int,
                                mm,
                            ) implies faces_current(self.chunks@, mm) by {
                            if mm != m {
                                assert(self.chunks@[mm] == before[mm]);
                                lemma_layers_same(before, self.chunks@, before[mm].position);
                            }
                        }
                        assert forall|mm: int|
                            0 <= mm < n && adjacent_upto(
                                base,
                                chunk_position,
                                d + 1,
                                mm,
                            ) implies faces_current(self.chunks@, mm) by {
                            if !adjacent_upto(base, chunk_position, d as int, mm) {
                                assert(find_chunk(base, neighbor_pos(chunk_position, dir)) == Some(
                                    mm,
                                ));
                                assert(mm == m);
                            }
                        }
                    }
                },
                None => {
                    proof {
                        lemma_find_chunk_positions(self.chunks@, base, npos);
                        assert forall|mm: int|
                            0 <= mm < n && adjacent_upto(
                                base,
                                chunk_position,
                                d + 1,
                                mm,
                            ) implies adjacent_upto(base, chunk_position, d as int, mm) by {}
                    }
                },
            }
            proof {
                assert(forall|m: int|
                    0 <= m < n && adjacent_upto(base, chunk_position, d + 1, m)
                        ==> faces_current(self.chunks@, m));
            }
            d = d + 1;
        }
        proof {
            assert forall|dd: int, m: int|
                #![trigger find_chunk(self.chunks@, neighbor_pos(chunk_position, dir_of_number(dd))), faces_current(self.chunks@, m)]
                0 <= dd < 6 && find_chunk(
                    self.chunks@,
                    neighbor_pos(chunk_position, dir_of_number(dd)),
                ) == Some(m) implies faces_current(self.chunks@, m) by {
                lemma_find_chunk(self.chunks@, neighbor_pos(chunk_position, dir_of_number(dd)));
                lemma_find_chunk_positions(self.chunks@, base, neighbor_pos(chunk_position, dir_of_number(dd)));
                assert(adjacent_upto(base, chunk_position, 6, m));
            }
            assert forall|m: int|
                0 <= m < n && !adjacent_to(self.chunks@, chunk_position, m) implies (
            #[trigger] self.chunks@[m]) == base[m] by {
                if adjacent_upto(base, chunk_position, 6, m) {
                    let dd = choose|dd: int|
                        0 <= dd < 6 && #[trigger] find_chunk(
                            base,
                            neighbor_pos(chunk_position, dir_of_number(dd)),
                        ) == Some(m);
                    lemma_find_chunk_positions(self.chunks@, base, neighbor_pos(chunk_position, dir_of_number(dd)));
                    assert(adjacent_upto(self.chunks@, chunk_position, 6, m));
                }
            }
        }
        true
    }

    /// Bring queued chunks into play.  First every queued chunk's voxel
    /// data is populated, so that neighbors read complete occupancy; then
    /// the first `INIT_BATCH` pending chunks in collection order get their
    /// faces computed from whatever neighbors are loaded and become
    /// active.  The batch bound caps the latency of one call; later calls
    /// pick up where this one stopped.
    pub fn initialize_chunks(&mut self)
        requires
            old(self).wf(),
        ensures
            final(self).wf(),
            final(self).chunks@.len() == old(self).chunks@.len(),
            final(self).position == old(self).position,
            final(self).view_distance == old(self).view_distance,
            forall|m: int|
                0 <= m < old(self).chunks@.len() ==> (#[trigger] final(self).chunks@[m]).position
                    == old(self).chunks@[m].position,
            forall|m: int|
                0 <= m < old(self).chunks@.len() ==> (#[trigger] final(self).chunks@[m]).block_data@
                    == (if old(self).chunks@[m].status
                    == ChunkStatus::Queued {
                    filled_grid(old(self).chunks@[m].block_data@)
                } else {
                    old(self).chunks@[m].block_data@
                }),
            forall|m: int|
                0 <= m < old(self).chunks@.len() && !pending(old(self).chunks@[m]) ==> (
                #[trigger] final(self).chunks@[m]) == old(self).chunks@[m],
            forall|m: int|
                0 <= m < old(self).chunks@.len() && pending(old(self).chunks@[m]) && count_pending(
                    old(self).chunks@,
                    m,
                ) < INIT_BATCH ==> (#[trigger] final(self).chunks@[m]).status
                    == ChunkStatus::Active && faces_current(final(self).chunks@, m),
            forall|m: int|
                0 <= m < old(self).chunks@.len() && pending(old(self).chunks@[m]) && count_pending(
                    old(self).chunks@,
                    m,
                ) >= INIT_BATCH ==> (#[trigger] final(self).chunks@[m]).status
                    == ChunkStatus::Initialized && final(self).chunks@[m].faces == old(
                    self,
                ).chunks@[m].faces,
    {
        let n: usize = self.chunks.len();
        let mut k: usize = 0;
        while k < n
            invariant
                k <= n,
                n == self.chunks@.len(),
                self.wf(),
                self.position == old(self).position,
                self.view_distance == old(self).view_distance,
                forall|m: int|
                    0 <= m < k ==> populated(
                        old(self).chunks@[m],
                        #[trigger] self.chunks@[m],
                    ),
                forall|m: int| k <= m < n ==> (#[trigger] self.chunks@[m]) == old(self).chunks@[m],
            decreases n - k,
        {
            if self.chunks[k].status == ChunkStatus::Queued {
                let ghost pre = self.chunks@;
                let mut c = self.chunks.remove(k);
                Self::initialize_chunk(&mut c);
                c.status = ChunkStatus::Initialized;
                self.chunks.insert(k, c);
                proof {
                    lemma_remove_insert(pre, k as int, c);
                    assert(self.chunks@ == pre.update(k as int, c));
                    assert forall|k1: int, k2: int|
                        #![trigger self.chunks@[k1].position, self.chunks@[k2].position]
                        0 <= k1 < k2 < n implies self.chunks@[k1].position
                        != self.chunks@[k2].position by {
                        assert(self.chunks@[k1].position == pre[k1].position);
                        assert(self.chunks@[k2].position == pre[k2].position);
                    }
                }
            }
            k = k + 1;
        }
        let ghost mid = self.chunks@;
        let mut budget: usize = INIT_BATCH;
        let mut k2: usize = 0;
        while k2 < n && budget > 0
            invariant
                k2 <= n,
                n == self.chunks@.len(),
                n == mid.len(),
                budget <= INIT_BATCH,
                count_pending(mid, k2 as int) == INIT_BATCH - budget,
                self.wf(),
                self.position == old(self).position,
                self.view_distance == old(self).view_distance,
                forall|m: int| 0 <= m < n ==> populated(old(self).chunks@[m], #[trigger] mid[m]),
                forall|m: int|
                    0 <= m < n ==> (#[trigger] self.chunks@[m]).position == mid[m].position && self
                        .chunks@[m].block_data@ == mid[m].block_data@,
                forall|m: int| k2 <= m < n ==> (#[trigger] self.chunks@[m]) == mid[m],
                forall|m: int|
                    0 <= m < k2 && pending(#[trigger] mid[m]) ==> self.chunks@[m].status
                        == ChunkStatus::Active && faces_current(self.chunks@, m),
                forall|m: int|
                    0 <= m < k2 && !pending(#[trigger] mid[m]) ==> self.chunks@[m] == mid[m],
            decreases n - k2,
        {
            if self.chunks[k2].status == ChunkStatus::Initialized {
                let pos = self.chunks[k2].position;
                let neighbors = self.get_neighbors(pos);
                let ghost pre = self.chunks@;
                let mut c = self.chunks.remove(k2);
                c.update_faces(neighbors);
                c.status = ChunkStatus::Active;
                self.chunks.insert(k2, c);
                proof {
                    lemma_remove_insert(pre, k2 as int, c);
                    assert(self.chunks@ == pre.update(k2 as int, c));
                    assert forall|k1: int, kk: int|
                        #![trigger self.chunks@[k1].position, self.chunks@[kk].position]
                        0 <= k1 < kk < n implies self.chunks@[k1].position
                        != self.chunks@[kk].position by {
                        assert(self.chunks@[k1].position == pre[k1].position);
                        assert(self.chunks@[kk].position == pre[kk].position);
                    }
                    lemma_layers_same(pre, self.chunks@, pos);
                    assert(faces_current(self.chunks@, k2 as int));
                    assert forall|m: int|
                        0 <= m < k2 && pending(#[trigger] mid[m]) implies self.chunks@[m].status
                        == ChunkStatus::Active && faces_current(self.chunks@, m) by {
                        assert(self.chunks@[m] == pre[m]);
                        lemma_layers_same(pre, self.chunks@, pre[m].position);
                    }
                }
                budget = budget - 1;
            }
            k2 = k2 + 1;
        }
        proof {
            let oldc = old(self).chunks@;
            let cur = self.chunks@;
            assert forall|m: int| 0 <= m < n implies pending(#[trigger] mid[m]) == pending(
                oldc[m],
            ) by {}
            assert forall|m: int| 0 <= m < n implies count_pending(oldc, m) == count_pending(
                mid,
                m,
            ) by {
                lemma_count_pending_same(oldc, mid, m);
            }
            assert forall|m: int|
                0 <= m < n && pending(oldc[m]) && count_pending(oldc, m)
                    < INIT_BATCH implies (#[trigger] cur[m]).status == ChunkStatus::Active
                && faces_current(cur, m) by {
                if m >= k2 as int {
                    lemma_count_pending_mono(mid, k2 as int, m);
                    assert(false);
                }
            }
            assert forall|m: int|
                0 <= m < n && pending(oldc[m]) && count_pending(oldc, m)
                    >= INIT_BATCH implies (#[trigger] cur[m]).status == ChunkStatus::Initialized
                && cur[m].faces == oldc[m].faces by {
                if m < k2 as int {
                    lemma_count_pending_mono(mid, m + 1, k2 as int);
                    assert(count_pending(mid, m + 1) == count_pending(mid, m) + 1);
                    assert(false);
                }
                assert(cur[m] == mid[m]);
            }
        }
    }

    /// Fresh queued chunks covering the view ball: one chunk for every
    /// coordinate whose offset from `position` has squared length at most
    /// `view_distance` squared, each with unique coordinates.
    fn create_chunks(position: ChunkPos, view_distance: i32) -> (r: Vec<Chunk>)
        requires
            0 <= view_distance <= 26754,
            center_ok(position, view_distance as int),
        ensures
            forall|k: int| 0 <= k < r@.len() ==> fresh_chunk(#[trigger] r@[k]),
            forall|k: int|
                0 <= k < r@.len() ==> rel_before(
                    position,
                    view_distance as int,
                    view_distance + 1,
                    0,
                    0,
                    #[trigger] r@[k],
                ),
            forall|k1: int, k2: int|
                #![trigger r@[k1].position, r@[k2].position]
                0 <= k1 < k2 < r@.len() ==> r@[k1].position != r@[k2].position,
            ball_covered(r@, position, view_distance as int, view_distance + 1, 0, 0),
    {
        let vd: i32 = view_distance;
        let ghost vdi = vd as int;
        let mut r: Vec<Chunk> = Vec::new();
        let mut dz: i32 = -vd;
        while dz <= vd
            invariant
                0 <= vd <= 26754,
                vdi == vd as int,
                center_ok(position, vdi),
                -vdi <= dz <= vdi + 1,
                forall|k: int| 0 <= k < r@.len() ==> fresh_chunk(#[trigger] r@[k]),
                forall|k: int|
                    0 <= k < r@.len() ==> rel_before(
                        position,
                        vdi,
                        dz as int,
                        -vdi,
                        -vdi,
                        #[trigger] r@[k],
                    ),
                forall|k1: int, k2: int|
                    #![trigger r@[k1].position, r@[k2].position]
                    0 <= k1 < k2 < r@.len() ==> r@[k1].position != r@[k2].position,
                ball_covered(r@, position, vdi, dz as int, -vdi, -vdi),
            decreases vd + 1 - dz,
        {
            let mut dy: i32 = -vd;
            while dy <= vd
                invariant
                    0 <= vd <= 26754,
                    vdi == vd as int,
                    center_ok(position, vdi),
                    -vdi <= dz <= vdi,
                    -vdi <= dy <= vdi + 1,
                    forall|k: int| 0 <= k < r@.len() ==> fresh_chunk(#[trigger] r@[k]),
                    forall|k: int|
                        0 <= k < r@.len() ==> rel_before(
                            position,
                            vdi,
                            dz as int,
                            dy as int,
                            -vdi,
                            #[trigger] r@[k],
                        ),
                    forall|k1: int, k2: int|
                        #![trigger r@[k1].position, r@[k2].position]
                        0 <= k1 < k2 < r@.len() ==> r@[k1].position != r@[k2].position,
                    ball_covered(r@, position, vdi, dz as int, dy as int, -vdi),
                decreases vd + 1 - dy,
            {
                let mut dx: i32 = -vd;
                while dx <= vd
                    invariant
                        0 <= vd <= 26754,
                        vdi == vd as int,
                        center_ok(position, vdi),
                        -vdi <= dz <= vdi,
                        -vdi <= dy <= vdi,
                        -vdi <= dx <= vdi + 1,
                        forall|k: int| 0 <= k < r@.len() ==> fresh_chunk(#[trigger] r@[k]),
                        forall|k: int|
                            0 <= k < r@.len() ==> rel_before(
                                position,
                                vdi,
                                dz as int,
                                dy as int,
                                dx as int,
                                #[trigger] r@[k],
                            ),
                        forall|k1: int, k2: int|
                            #![trigger r@[k1].position, r@[k2].position]
                            0 <= k1 < k2 < r@.len() ==> r@[k1].position != r@[k2].position,
                        ball_covered(r@, position, vdi, dz as int, dy as int, dx as int),
                    decreases vd + 1 - dx,
                {
                    proof {
                        assert(0 <= dx * dx <= vdi * vdi && 0 <= dy * dy <= vdi * vdi && 0 <= dz
                            * dz <= vdi * vdi && vdi * vdi <= 715776516) by (nonlinear_arith)
                            requires
                                -vdi <= dx <= vdi,
                                -vdi <= dy <= vdi,
                                -vdi <= dz <= vdi,
                                0 <= vdi <= 26754,
                        ;
                    }
                    let ls: i32 = dx * dx + dy * dy + dz * dz;
                    if ls <= vd * vd {
                        let p = ChunkPos { x: position.x + dx, y: position.y + dy, z: position.z
                            + dz };
                        let c = Chunk::new(p);
                        let ghost r0 = r@;
                        r.push(c);
                        proof {
                            assert(r@[r@.len() - 1].position == p);
                            assert forall|az: int, ay: int, ax: int|
                                -vdi <= ax <= vdi && -vdi <= ay <= vdi && -vdi <= az <= vdi && ax
                                    * ax + ay * ay + az * az <= vdi * vdi && (az < dz || (az == dz
                                    && (ay < dy || (ay == dy && ax < dx
                                    + 1)))) implies #[trigger] has_chunk_at(
                                r@,
                                offset_pos(position, ax, ay, az),
                            ) by {
                                if az == dz && ay == dy && ax == dx {
                                    assert(offset_pos(position, ax, ay, az) == p);
                                    assert(has_chunk_at(r@, p));
                                } else {
                                    lemma_has_chunk_grow(
                                        r0,
                                        r@,
                                        offset_pos(position, ax, ay, az),
                                    );
                                }
                            }
                        }
                    }
                    dx = dx + 1;
                }
                dy = dy + 1;
            }
            dz = dz + 1;
        }
        r
    }

    /// A collection of fresh queued chunks filling the view ball around
    /// the origin.
    pub fn new(view_distance: i32) -> (r: ChunkManager)
        requires
            0 <= view_distance <= 26754,
        ensures
            r.wf(),
            r.position == (ChunkPos { x: 0, y: 0, z: 0 }),
            r.view_distance == view_distance,
            forall|k: int| 0 <= k < r.chunks@.len() ==> fresh_chunk(#[trigger] r.chunks@[k]),
            forall|k: int|
                0 <= k < r.chunks@.len() ==> rel_before(
                    r.position,
                    view_distance as int,
                    view_distance + 1,
                    0,
                    0,
                    #[trigger] r.chunks@[k],
                ),
            ball_covered(
                r.chunks@,
                r.position,
                view_distance as int,
                view_distance + 1,
                0,
                0,
            ),
    {
        let origin = ChunkPos { x: 0, y: 0, z: 0 };
        let chunks = Self::create_chunks(origin, view_distance);
        let r = ChunkManager { chunks, position: origin, view_distance };
        proof {
            assert forall|k: int| 0 <= k < r.chunks@.len() implies pos_in_bounds(
                (#[trigger] r.chunks@[k]).position,
            ) by {
                assert(rel_before(
                    origin,
                    view_distance as int,
                    view_distance + 1,
                    0,
                    0,
                    r.chunks@[k],
                ));
            }
        }
        r
    }

    /// The chunk at `chunk_position`, if one is loaded.
    pub fn get_chunk(&self, chunk_position: ChunkPos) -> (r: Option<&Chunk>)
        ensures
            match r {
                Some(c) => find_chunk(self.chunks@, chunk_position) matches Some(k) && *c
                    == self.chunks@[k],
                None => find_chunk(self.chunks@, chunk_position) is None,
            },
    {
        match self.find_chunk_index(chunk_position) {
            Some(k) => {
                proof {
                    lemma_find_chunk(self.chunks@, chunk_position);
                }
                Some(&self.chunks[k])
            },
            None => None,
        }
    }

    /// The indices of the chunks worth drawing: active and with at least
    /// one visible face, in collection order.
    pub fn visible_chunks(&self) -> (r: Vec<usize>)
        ensures
            r@ == visible_indices(self.chunks@, self.chunks@.len() as int),
    {
        let n: usize = self.chunks.len();
        let mut r: Vec<usize> = Vec::new();
        let mut k: usize = 0;
        while k < n
            invariant
                k <= n,
                n == self.chunks@.len(),
                r@ == visible_indices(self.chunks@, k as int),
            decreases n - k,
        {
            if self.chunks[k].status == ChunkStatus::Active && self.chunks[k].face_count != 0 {
                r.push(k);
            }
            proof {
                assert(r@ =~= visible_indices(self.chunks@, k + 1));
            }
            k = k + 1;
        }
        r
    }
}

} // verus!

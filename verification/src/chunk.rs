//! A chunk: one fixed-size voxel cube, its last computed face sets, and
//! the draw-instance encoding a renderer consumes.
//!
//! A chunk owns a 16-sided occupancy grid, the six visible-face bitsets
//! last computed for it, and the flat list of draw instances those bitsets
//! decode to: one `u32` per visible face, packing the cell coordinates and
//! the face direction.

use crate::array3d::{
    cells, coord_x, coord_y, coord_z, dir_of_number, layer_view, neighbors_ok, visible_grid,
    Array3D,
};
use crate::bitvec::BitVec;
use vstd::arithmetic::div_mod::{
    lemma_fundamental_div_mod_converse, lemma_mod_bound, lemma_multiply_divide_lt,
};
use vstd::prelude::*;

verus! {

/// Side length of every chunk cube.
pub const CHUNK_SIZE: usize = 16;

/// A chunk's integer coordinate in the 3D chunk grid.
#[derive(Clone, Copy, Debug, PartialEq, Eq, Structural, Hash)]
pub struct ChunkPos {
    pub x: i32,
    pub y: i32,
    pub z: i32,
}

/// Where a chunk stands in its lifecycle.
#[derive(Clone, Copy, Debug, PartialEq, Eq, Structural)]
pub enum ChunkStatus {
    /// Created, voxel data not yet populated.
    Queued,
    /// Voxel data populated, faces not yet computed.
    Initialized,
    /// Faces computed; the chunk takes part in rendering.
    Active,
    /// Removed from play.
    Unloaded,
}

/// One visible face, packed for the renderer: bits 0..8 hold x, 8..16 hold
/// y, 16..24 hold z, 24..32 the direction code.
#[derive(Clone, Copy, Debug, PartialEq, Eq, Structural)]
pub struct QuadInstance {
    pub data: u32,
}

/// The per-chunk constants handed to the renderer alongside the instances.
#[derive(Clone, Copy, Debug)]
pub struct RawChunk {
    pub position: [i32; 3],
}

/// The packed code of the face of cell `i` toward direction `j`.
pub open spec fn quad_code(i: int, j: int) -> int {
    coord_x(16, i) + coord_y(16, i) * 256 + coord_z(16, i) * 65536 + j * 16777216
}

/// The bit sequences of a table of face bitsets.
pub open spec fn faces_views(faces: Seq<BitVec>) -> Seq<Seq<bool>> {
    Seq::new(faces.len(), |d: int| faces[d]@)
}

/// The instance, if any, for step `t` of the cell-major walk over all
/// (cell, direction) pairs: step `t` visits cell `t / 6`, direction
/// `t % 6`.
pub open spec fn step_instance(faces: Seq<Seq<bool>>, t: int) -> Seq<QuadInstance> {
    if faces[t % 6][t / 6] {
        seq![QuadInstance { data: quad_code(t / 6, t % 6) as u32 }]
    } else {
        Seq::empty()
    }
}

/// The instances emitted by the first `t` steps of the walk.
pub open spec fn instances_upto(faces: Seq<Seq<bool>>, t: int) -> Seq<QuadInstance>
    decreases t,
{
    if t <= 0 {
        Seq::empty()
    } else {
        instances_upto(faces, t - 1) + step_instance(faces, t - 1)
    }
}

/// All instances of a chunk: one per set bit of its six face bitsets, in
/// cell-major order.
pub open spec fn chunk_instances(faces: Seq<Seq<bool>>) -> Seq<QuadInstance> {
    instances_upto(faces, 6 * cells(16))
}

/// Each step emits at most one instance.
pub proof fn lemma_instances_upto_len(faces: Seq<Seq<bool>>, t: int)
    requires
        t >= 0,
    ensures
        instances_upto(faces, t).len() <= t,
    decreases t,
{
    if t > 0 {
        lemma_instances_upto_len(faces, t - 1);
    }
}

/// All-empty face bitsets emit no instance.
pub proof fn lemma_instances_upto_empty(faces: Seq<Seq<bool>>, t: int)
    requires
        0 <= t <= 6 * cells(16),
        faces.len() == 6,
        forall|j: int, i: int| 0 <= j < 6 && 0 <= i < cells(16) ==> !(#[trigger] faces[j][i]),
    ensures
        instances_upto(faces, t).len() == 0,
    decreases t,
{
    if t > 0 {
        lemma_instances_upto_empty(faces, t - 1);
        lemma_mod_bound(t - 1, 6);
        lemma_multiply_divide_lt(t - 1, 6, cells(16));
        vstd::arithmetic::div_mod::lemma_div_pos_is_pos(t - 1, 6);
    }
}

/// A chunk: its occupancy, its last computed faces, and their renderer
/// encoding.
pub struct Chunk {
    /// One occupancy bit per voxel cell.
    pub block_data: Array3D,
    /// The six visible-face bitsets last computed, in direction code order.
    pub faces: Vec<BitVec>,
    /// How many faces are visible: the length of `instances`.
    pub face_count: u32,
    /// One packed draw instance per visible face, in cell-major order.
    pub instances: Vec<QuadInstance>,
    /// This chunk's coordinate in the chunk grid.
    pub position: ChunkPos,
    /// The same coordinate in the form handed to the renderer.
    pub metadata: RawChunk,
    /// Lifecycle state.
    pub status: ChunkStatus,
}

impl Chunk {
    /// A coherent chunk: an intact 16-sided grid, six intact face bitsets,
    /// and instances plus count derived from exactly those bitsets.
    pub open spec fn wf(self) -> bool {
        &&& self.block_data.wf()
        &&& self.block_data.spec_size() == CHUNK_SIZE
        &&& self.faces@.len() == 6
        &&& forall|d: int|
            0 <= d < 6 ==> (#[trigger] self.faces@[d]).wf() && self.faces@[d]@.len() == cells(16)
        &&& self.instances@ == chunk_instances(faces_views(self.faces@))
        &&& self.face_count == self.instances@.len()
        &&& self.metadata.position[0] == self.position.x
        &&& self.metadata.position[1] == self.position.y
        &&& self.metadata.position[2] == self.position.z
    }

    /// A fresh chunk at `position`: all-empty occupancy, all-empty faces,
    /// no instances, queued for initialization.
    pub fn new(position: ChunkPos) -> (r: Chunk)
        ensures
            r.wf(),
            r.position == position,
            r.status == ChunkStatus::Queued,
            r.block_data.spec_size() == CHUNK_SIZE,
            forall|i: int| 0 <= i < cells(16) ==> !r.block_data@[i],
            forall|d: int, i: int|
                0 <= d < 6 && 0 <= i < cells(16) ==> !(#[trigger] r.faces@[d]@[i]),
            r.face_count == 0,
            r.instances@.len() == 0,
    {
        let block_data = Array3D::new(CHUNK_SIZE);
        let volume: usize = CHUNK_SIZE * CHUNK_SIZE * CHUNK_SIZE;
        let mut faces: Vec<BitVec> = Vec::new();
        let mut d: usize = 0;
        while d < 6
            invariant
                d <= 6,
                faces@.len() == d,
                volume == cells(16),
                forall|k: int|
                    0 <= k < d ==> (#[trigger] faces@[k]).wf() && faces@[k]@.len() == cells(16)
                        && forall|i: int| 0 <= i < cells(16) ==> !faces@[k]@[i],
            decreases 6 - d,
        {
            faces.push(BitVec::new(volume));
            d = d + 1;
        }
        let r = Chunk {
            block_data,
            faces,
            face_count: 0,
            instances: Vec::new(),
            position,
            metadata: RawChunk { position: [position.x, position.y, position.z] },
            status: ChunkStatus::Queued,
        };
        proof {
            lemma_instances_upto_empty(faces_views(r.faces@), 6 * cells(16));
            assert(r.instances@ =~= chunk_instances(faces_views(r.faces@)));
        }
        r
    }

    /// How many faces of this chunk are visible.
    pub fn face_count(&self) -> (n: u32)
        ensures
            n == self.face_count,
    {
        self.face_count
    }

    /// One packed draw instance per set bit of `faces`, walked cell-major:
    /// for each cell in linear order, each direction in code order.
    pub fn generate_instances(&self, faces: &Vec<BitVec>) -> (r: Vec<QuadInstance>)
        requires
            faces@.len() == 6,
            forall|d: int|
                0 <= d < 6 ==> (#[trigger] faces@[d]).wf() && faces@[d]@.len() == cells(16),
        ensures
            r@ == chunk_instances(faces_views(faces@)),
    {
        let volume: usize = CHUNK_SIZE * CHUNK_SIZE * CHUNK_SIZE;
        let ghost fv = faces_views(faces@);
        let mut instances: Vec<QuadInstance> = Vec::new();
        let mut i: usize = 0;
        while i < volume
            invariant
                i <= volume,
                volume == cells(16),
                faces@.len() == 6,
                forall|d: int|
                    0 <= d < 6 ==> (#[trigger] faces@[d]).wf() && faces@[d]@.len() == cells(16),
                fv == faces_views(faces@),
                instances@ == instances_upto(fv, 6 * i),
            decreases volume - i,
        {
            let mut j: usize = 0;
            while j < 6
                invariant
                    j <= 6,
                    i < volume,
                    volume == cells(16),
                    faces@.len() == 6,
                    forall|d: int|
                        0 <= d < 6 ==> (#[trigger] faces@[d]).wf() && faces@[d]@.len() == cells(
                            16,
                        ),
                    fv == faces_views(faces@),
                    instances@ == instances_upto(fv, 6 * i + j),
                decreases 6 - j,
            {
                let ghost t = 6 * (i as int) + j;
                proof {
                    lemma_fundamental_div_mod_converse(t, 6, i as int, j as int);
                }
                if faces[j].get_bit(i) {
                    let x: u32 = (i % 16) as u32;
                    let y: u32 = ((i / 16) % 16) as u32;
                    let z: u32 = (i / 256) as u32;
                    let jj: u32 = j as u32;
                    proof {
                        lemma_multiply_divide_lt(i as int, 256, 16);
                        lemma_mod_bound(i as int, 16);
                        lemma_mod_bound((i as int) / 16, 16);
                        assert(x | (y << 8u32) | (z << 16u32) | (jj << 24u32) == x + y * 256 + z
                            * 65536 + jj * 16777216) by (bit_vector)
                            requires
                                x < 16,
                                y < 16,
                                z < 16,
                                jj < 6,
                        ;
                    }
                    let data: u32 = x | (y << 8u32) | (z << 16u32) | (jj << 24u32);
                    instances.push(QuadInstance { data });
                    proof {
                        assert(instances@ =~= instances_upto(fv, t + 1));
                    }
                } else {
                    proof {
                        assert(instances@ =~= instances_upto(fv, t + 1));
                    }
                }
                j = j + 1;
            }
            i = i + 1;
        }
        instances
    }

    /// Recompute the six face bitsets from the current occupancy and the
    /// given neighbor layers, and refresh the instances and the face count
    /// to match.  The occupancy, position and status stay as they were.
    pub fn update_faces(&mut self, neighbors: Vec<Option<BitVec>>)
        requires
            old(self).wf(),
            neighbors_ok(CHUNK_SIZE as int, neighbors@),
        ensures
            final(self).wf(),
            final(self).block_data == old(self).block_data,
            final(self).position == old(self).position,
            final(self).metadata == old(self).metadata,
            final(self).status == old(self).status,
            forall|d: int|
                0 <= d < 6 ==> (#[trigger] final(self).faces@[d])@ == visible_grid(
                    old(self).block_data@,
                    16,
                    dir_of_number(d),
                    layer_view(neighbors@[d]),
                ),
    {
        let faces = self.block_data.get_faces(neighbors);
        let mut same: bool = true;
        let mut d: usize = 0;
        while d < 6
            invariant
                d <= 6,
                self.wf(),
                faces@.len() == 6,
                forall|k: int|
                    0 <= k < 6 ==> (#[trigger] faces@[k]).wf() && faces@[k]@.len() == cells(16),
                same == (forall|k: int| 0 <= k < d ==> (#[trigger] self.faces@[k])@ == faces@[k]@),
            decreases 6 - d,
        {
            if !self.faces[d].same_bits(&faces[d]) {
                same = false;
            }
            d = d + 1;
        }
        if same {
            proof {
                assert(faces_views(self.faces@) =~= faces_views(faces@));
            }
            return ;
        }
        let instances = self.generate_instances(&faces);
        let count: usize = instances.len();
        proof {
            lemma_instances_upto_len(faces_views(faces@), 6 * cells(16));
        }
        self.faces = faces;
        self.instances = instances;
        self.face_count = count as u32;
    }
}

} // verus!

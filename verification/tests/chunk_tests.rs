//! Chunks, draw-instance encoding, the chunk collection, and the
//! lifecycle.

use voxel_faces::bitvec::BitVec;
use voxel_faces::chunk::{Chunk, ChunkPos, ChunkStatus, CHUNK_SIZE};
use voxel_faces::chunk_manager::ChunkManager;
use voxel_faces::pipeline::PipelineType;
use voxel_faces::GridError;

fn no_neighbors() -> Vec<Option<BitVec>> {
    vec![None, None, None, None, None, None]
}

fn origin() -> ChunkPos {
    ChunkPos { x: 0, y: 0, z: 0 }
}

#[test]
fn fresh_chunk_is_queued_and_faceless() {
    let c = Chunk::new(ChunkPos { x: 1, y: -2, z: 3 });
    assert_eq!(c.status, ChunkStatus::Queued);
    assert_eq!(c.face_count(), 0);
    assert_eq!(c.instances.len(), 0);
    assert_eq!(c.position, ChunkPos { x: 1, y: -2, z: 3 });
    assert_eq!(c.metadata.position, [1, -2, 3]);
    assert_eq!(c.block_data.get(0, 0, 0), Ok(false));
}

#[test]
fn one_cell_yields_six_decodable_instances() {
    let mut c = Chunk::new(origin());
    c.block_data.set(3, 5, 7, true).unwrap();
    c.update_faces(no_neighbors());
    assert_eq!(c.face_count(), 6);
    assert_eq!(c.instances.len(), 6);
    for (j, inst) in c.instances.iter().enumerate() {
        let data = inst.data;
        assert_eq!(data & 0xff, 3);
        assert_eq!((data >> 8) & 0xff, 5);
        assert_eq!((data >> 16) & 0xff, 7);
        assert_eq!(data >> 24, j as u32);
    }
}

#[test]
fn instances_walk_cells_in_linear_order() {
    let mut c = Chunk::new(origin());
    c.block_data.set(0, 0, 0, true).unwrap();
    c.block_data.set(15, 15, 15, true).unwrap();
    c.update_faces(no_neighbors());
    assert_eq!(c.instances.len(), 12);
    // the first six belong to cell (0,0,0), the last six to (15,15,15)
    for j in 0..6 {
        assert_eq!(c.instances[j].data, (j as u32) << 24);
        let expected = 15 | (15 << 8) | (15 << 16) | ((j as u32) << 24);
        assert_eq!(c.instances[6 + j].data, expected);
    }
}

#[test]
fn update_faces_twice_changes_nothing() {
    let mut c = Chunk::new(origin());
    c.block_data.set(4, 4, 4, true).unwrap();
    c.block_data.set(4, 5, 4, true).unwrap();
    c.update_faces(no_neighbors());
    let count = c.face_count();
    let first: Vec<u32> = c.instances.iter().map(|q| q.data).collect();
    c.update_faces(no_neighbors());
    assert_eq!(c.face_count(), count);
    let second: Vec<u32> = c.instances.iter().map(|q| q.data).collect();
    assert_eq!(first, second);
}

#[test]
fn two_touching_cells_lose_their_shared_faces() {
    let mut c = Chunk::new(origin());
    c.block_data.set(8, 8, 8, true).unwrap();
    c.block_data.set(9, 8, 8, true).unwrap();
    c.update_faces(no_neighbors());
    // 12 faces minus the 2 pressed together
    assert_eq!(c.face_count(), 10);
}

#[test]
fn manager_creates_the_view_ball() {
    let m = ChunkManager::new(1);
    // radius 1: the origin plus its six axis neighbors
    assert_eq!(m.chunks.len(), 7);
    for c in m.chunks.iter() {
        assert_eq!(c.status, ChunkStatus::Queued);
        let p = c.position;
        assert!(p.x * p.x + p.y * p.y + p.z * p.z <= 1);
    }
    assert!(m.get_chunk(origin()).is_some());
    assert!(m.get_chunk(ChunkPos { x: 0, y: 0, z: 1 }).is_some());
    assert!(m.get_chunk(ChunkPos { x: 1, y: 1, z: 0 }).is_none());
}

#[test]
fn initialize_chunks_populates_and_activates() {
    let mut m = ChunkManager::new(0);
    assert_eq!(m.chunks.len(), 1);
    m.initialize_chunks();
    let c = &m.chunks[0];
    assert_eq!(c.status, ChunkStatus::Active);
    // the wall pattern: x and y walls solid, interior empty
    assert_eq!(c.block_data.get(0, 8, 8), Ok(true));
    assert_eq!(c.block_data.get(15, 8, 8), Ok(true));
    assert_eq!(c.block_data.get(8, 0, 8), Ok(true));
    assert_eq!(c.block_data.get(8, 15, 8), Ok(true));
    assert_eq!(c.block_data.get(8, 8, 8), Ok(false));
    assert!(c.face_count() > 0);
    assert_eq!(m.visible_chunks(), vec![0]);
}

#[test]
fn initialize_chunks_activates_every_chunk_within_the_batch() {
    let mut m = ChunkManager::new(1);
    m.initialize_chunks();
    for c in m.chunks.iter() {
        assert_eq!(c.status, ChunkStatus::Active);
    }
    assert_eq!(m.visible_chunks().len(), 7);
}

#[test]
fn initialize_chunks_settles_after_one_pass() {
    let mut m = ChunkManager::new(1);
    m.initialize_chunks();
    let counts: Vec<u32> = m.chunks.iter().map(|c| c.face_count()).collect();
    m.initialize_chunks();
    let again: Vec<u32> = m.chunks.iter().map(|c| c.face_count()).collect();
    assert_eq!(counts, again);
    for c in m.chunks.iter() {
        assert_eq!(c.status, ChunkStatus::Active);
    }
}

#[test]
fn neighboring_walls_occlude_across_the_chunk_seam() {
    let mut m = ChunkManager::new(1);
    m.initialize_chunks();
    // the lone chunk at +x shares its x = 0 wall with the origin chunk's
    // x = 15 wall, so those two walls hide each other's seam faces, while
    // a chunk with no +x neighbor keeps its x = 15 wall fully visible.
    let with_neighbor = m.get_chunk(origin()).unwrap().face_count();
    let lonely = m.get_chunk(ChunkPos { x: 1, y: 0, z: 0 }).unwrap().face_count();
    assert!(lonely > with_neighbor);
}

#[test]
fn set_block_adds_the_faces_of_an_interior_cell() {
    let mut m = ChunkManager::new(1);
    m.initialize_chunks();
    let before = m.get_chunk(origin()).unwrap().face_count();
    assert_eq!(m.set_block(origin(), 8, 8, 8, true), Ok(true));
    let after = m.get_chunk(origin()).unwrap().face_count();
    assert_eq!(after, before + 6);
    assert_eq!(m.get_chunk(origin()).unwrap().block_data.get(8, 8, 8), Ok(true));
    // clearing the cell restores the old count
    assert_eq!(m.set_block(origin(), 8, 8, 8, false), Ok(true));
    assert_eq!(m.get_chunk(origin()).unwrap().face_count(), before);
}

#[test]
fn set_block_refreshes_the_neighbor_behind_an_edited_boundary() {
    let mut m = ChunkManager::new(1);
    m.initialize_chunks();
    let front_pos = ChunkPos { x: 0, y: 0, z: 1 };
    let neighbor_before = m.get_chunk(front_pos).unwrap().face_count();
    // an edit on the z = 15 plane of the origin chunk faces the +z neighbor
    assert_eq!(m.set_block(origin(), 8, 8, 15, true), Ok(true));
    // the neighbor's occupancy is untouched and the edited cell does not
    // occlude any of its solid cells, so its count is recomputed unchanged
    let neighbor_after = m.get_chunk(front_pos).unwrap().face_count();
    assert_eq!(neighbor_after, neighbor_before);
    // the edited cell itself gained six faces: nothing touches it
    let origin_after = m.get_chunk(origin()).unwrap();
    assert_eq!(origin_after.block_data.get(8, 8, 15), Ok(true));
}

#[test]
fn set_block_rejects_bad_coordinates_and_missing_chunks() {
    let mut m = ChunkManager::new(0);
    m.initialize_chunks();
    assert_eq!(m.set_block(origin(), 16, 0, 0, true), Err(GridError::OutOfRange));
    assert_eq!(m.set_block(origin(), 0, 0, CHUNK_SIZE, true), Err(GridError::OutOfRange));
    assert_eq!(m.set_block(ChunkPos { x: 5, y: 5, z: 5 }, 0, 0, 0, true), Ok(false));
    // neither rejected call changed anything
    assert_eq!(m.get_chunk(origin()).unwrap().block_data.get(0, 0, 0), Ok(true));
}

#[test]
fn unload_removes_the_chunk_and_reopens_its_neighbors() {
    let mut m = ChunkManager::new(1);
    m.initialize_chunks();
    let before = m.get_chunk(origin()).unwrap().face_count();
    // drop the +x neighbor: the origin chunk's wall toward it, no longer
    // pressed against the neighbor's wall, becomes visible again
    assert!(m.unload(ChunkPos { x: 1, y: 0, z: 0 }));
    assert!(m.get_chunk(ChunkPos { x: 1, y: 0, z: 0 }).is_none());
    assert_eq!(m.chunks.len(), 6);
    let after = m.get_chunk(origin()).unwrap().face_count();
    assert!(after > before);
    // unloading an absent chunk reports false and changes nothing
    assert!(!m.unload(ChunkPos { x: 9, y: 9, z: 9 }));
    assert_eq!(m.chunks.len(), 6);
}

#[test]
fn pipeline_toggle_alternates() {
    let mut p = PipelineType::Triangle;
    p.toggle();
    assert_eq!(p, PipelineType::Line);
    p.toggle();
    assert_eq!(p, PipelineType::Triangle);
}

use vstd::prelude::*;

use crate::block_info::BlockInfoRegistry;
use crate::mesh_builder::{build_chunk_mesh, chunk_origin, interior_hi, interior_lo, mesh_of, tagged_quads, ChunkMesh};
use crate::mesher::{face_at, face_quads, Cell, Quad, VoxelBuffer};
use crate::streaming::ChunkPosition;
use crate::block_info::base_hash;
use crate::terrain::{flat_terrain_at, generate_flat_terrain, CHUNK_SIZE_OUTER};

verus! {

/// Blocks along each axis of a chunk's interior.
pub const CHUNK_SIZE_BLOCKS: usize = 16;

/// A chunk: its position, its voxels with a one-voxel halo, and for each
/// interior cell the registry hash of the block placed there, if any.
pub struct Chunk {
    pub position: ChunkPosition,
    pub voxels: VoxelBuffer,
    pub block_data: Vec<Option<u64>>,
}

impl Chunk {
    pub open spec fn wf(&self) -> bool {
        &&& self.voxels.wf()
        &&& self.voxels.size_x == CHUNK_SIZE_OUTER
        &&& self.voxels.size_y == CHUNK_SIZE_OUTER
        &&& self.voxels.size_z == CHUNK_SIZE_OUTER
        &&& self.block_data@.len() == CHUNK_SIZE_BLOCKS * CHUNK_SIZE_BLOCKS * CHUNK_SIZE_BLOCKS
    }

    /// An empty chunk at `position`: air everywhere, no blocks placed.
    pub fn new(position: ChunkPosition) -> (r: Chunk)
        ensures
            r.wf(),
            r.position == position,
            forall|i: int| 0 <= i < r.voxels.voxels@.len() ==> r.voxels.voxels@[i] == crate::voxel::air_voxel(),
            forall|i: int| 0 <= i < r.block_data@.len() ==> r.block_data@[i] is None,
    {
        let voxels = VoxelBuffer::new(CHUNK_SIZE_OUTER, CHUNK_SIZE_OUTER, CHUNK_SIZE_OUTER);
        let total = CHUNK_SIZE_BLOCKS * CHUNK_SIZE_BLOCKS * CHUNK_SIZE_BLOCKS;
        let mut block_data: Vec<Option<u64>> = Vec::new();
        while block_data.len() < total
            invariant
                block_data@.len() <= total,
                forall|i: int| 0 <= i < block_data@.len() ==> block_data@[i] is None,
            decreases total - block_data@.len(),
        {
            block_data.push(None);
        }
        Chunk { position, voxels, block_data }
    }

    /// The block placed at interior cell `(x, y, z)`, counted from 0.
    pub fn get_block(&self, x: usize, y: usize, z: usize) -> (r: Option<u64>)
        requires
            self.wf(),
            x < CHUNK_SIZE_BLOCKS,
            y < CHUNK_SIZE_BLOCKS,
            z < CHUNK_SIZE_BLOCKS,
        ensures
            r == self.block_data@[x + CHUNK_SIZE_BLOCKS * y + CHUNK_SIZE_BLOCKS * CHUNK_SIZE_BLOCKS * z],
    {
        self.block_data[x + CHUNK_SIZE_BLOCKS * y + CHUNK_SIZE_BLOCKS * CHUNK_SIZE_BLOCKS * z]
    }

    /// Fills the voxels with flat terrain of the base blocks; false, with the
    /// chunk unchanged, where one of them is not registered.
    pub fn update_voxels(&mut self, registry: &BlockInfoRegistry) -> (r: bool)
        requires
            old(self).wf(),
            registry.wf(),
        ensures
            final(self).wf(),
            final(self).position == old(self).position,
            final(self).block_data == old(self).block_data,
            r <==> (registry.entries().contains_key(base_hash("grass"@))
                && registry.entries().contains_key(base_hash("dirt"@))
                && registry.entries().contains_key(base_hash("cobblestone"@))),
            r ==> forall|c: Cell|
                final(self).voxels.in_bounds(c) ==> #[trigger] final(self).voxels.voxel_at(c) == flat_terrain_at(
                    c,
                    base_hash("grass"@),
                    base_hash("dirt"@),
                    base_hash("cobblestone"@),
                ),
            !r ==> final(self).voxels == old(self).voxels,
    {
        match generate_flat_terrain(registry) {
            Some(voxels) => {
                self.voxels = voxels;
                true
            },
            None => false,
        }
    }

    /// The render buffers of the chunk (see `build_chunk_mesh`).
    pub fn serialize_voxels_to_render_mesh(&self, registry: &BlockInfoRegistry) -> (r: ChunkMesh)
        requires
            self.wf(),
            registry.wf(),
        ensures
            exists|groups: Seq<Seq<Quad>>|
                {
                    &&& groups.len() == 6
                    &&& forall|g: int|
                        0 <= g < 6 ==> face_quads(
                            self.voxels,
                            face_at(g),
                            interior_lo(),
                            interior_hi(self.voxels),
                            #[trigger] groups[g],
                        )
                    &&& mesh_of(r, tagged_quads(groups), *registry, self.voxels, chunk_origin(self.position))
                },
    {
        build_chunk_mesh(&self.voxels, self.position, registry)
    }
}

} // verus!

use vstd::prelude::*;

use crate::block_info::{
    base_hash, name_hash, qualified_name, registry_name_of, BlockInfo, BlockInfoRegistry, BASE_CATEGORY,
};
use crate::mesher::{lemma_index_bounds, lemma_linear_injective, linear_index, Cell, VoxelBuffer};
use crate::voxel::{air_voxel, BlockVoxel};

verus! {

/// Voxels along each axis of a chunk buffer: the interior and a halo on each side.
pub const CHUNK_SIZE_OUTER: usize = 18;

/// The voxel that stands for a block: air where there is no block.
pub open spec fn voxel_of(info: Option<BlockInfo>) -> BlockVoxel {
    match info {
        Some(i) => BlockVoxel {
            block_info_key_hash: name_hash(registry_name_of(i)),
            is_air: false,
            is_translucent: i.is_translucent,
        },
        None => air_voxel(),
    }
}

pub fn voxel_of_block(info: Option<&BlockInfo>) -> (r: BlockVoxel)
    ensures
        r == voxel_of(match info {
            Some(i) => Some(*i),
            None => None,
        }),
{
    match info {
        Some(i) => BlockVoxel {
            block_info_key_hash: i.get_registry_name_hash(),
            is_air: false,
            is_translucent: i.is_translucent,
        },
        None => BlockVoxel::air(),
    }
}

/// A solid opaque voxel of the block whose registry name hashes to `h`.
pub open spec fn solid(h: u64) -> BlockVoxel {
    BlockVoxel { block_info_key_hash: h, is_air: false, is_translucent: false }
}

/// The flat terrain of a chunk buffer: air in the halo; in the interior, grass
/// on the top layer, dirt on the two below it, cobblestone under them.
pub open spec fn flat_terrain_at(c: Cell, grass: u64, dirt: u64, cobble: u64) -> BlockVoxel {
    let top = CHUNK_SIZE_OUTER - 2;
    if 1 <= c.0 <= top && 1 <= c.1 <= top && 1 <= c.2 <= top {
        if c.1 == top {
            solid(grass)
        } else if top - 3 < c.1 {
            solid(dirt)
        } else {
            solid(cobble)
        }
    } else {
        air_voxel()
    }
}

pub open spec fn in_chunk(c: Cell) -> bool {
    0 <= c.0 < CHUNK_SIZE_OUTER && 0 <= c.1 < CHUNK_SIZE_OUTER && 0 <= c.2 < CHUNK_SIZE_OUTER
}

#[verifier::loop_isolation(false)]
fn flat_terrain(grass: u64, dirt: u64, cobble: u64) -> (r: VoxelBuffer)
    ensures
        r.wf(),
        r.size_x == CHUNK_SIZE_OUTER && r.size_y == CHUNK_SIZE_OUTER && r.size_z == CHUNK_SIZE_OUTER,
        forall|c: Cell| r.in_bounds(c) ==> #[trigger] r.voxel_at(c) == flat_terrain_at(c, grass, dirt, cobble),
{
    let n = CHUNK_SIZE_OUTER;
    let top = n - 2;
    let mut voxels: Vec<BlockVoxel> = Vec::new();
    let mut z: usize = 0;
    while z < n
        invariant
            z <= n,
            voxels@.len() == linear_index(18, 18, (0, 0, z as int)),
            forall|c: Cell|
                in_chunk(c) && linear_index(18, 18, c) < voxels@.len() ==> voxels@[linear_index(18, 18, c)]
                    == flat_terrain_at(c, grass, dirt, cobble),
        decreases n - z,
    {
        let mut y: usize = 0;
        while y < n
            invariant
                z < n,
                y <= n,
                voxels@.len() == linear_index(18, 18, (0, y as int, z as int)),
                forall|c: Cell|
                    in_chunk(c) && linear_index(18, 18, c) < voxels@.len() ==> voxels@[linear_index(18, 18, c)]
                        == flat_terrain_at(c, grass, dirt, cobble),
            decreases n - y,
        {
            let mut x: usize = 0;
            while x < n
                invariant
                    z < n,
                    y < n,
                    x <= n,
                    voxels@.len() == linear_index(18, 18, (x as int, y as int, z as int)),
                    forall|c: Cell|
                        in_chunk(c) && linear_index(18, 18, c) < voxels@.len() ==> voxels@[linear_index(18, 18, c)]
                            == flat_terrain_at(c, grass, dirt, cobble),
                decreases n - x,
            {
                let v = if 1 <= x && x <= top && 1 <= y && y <= top && 1 <= z && z <= top {
                    if y == top {
                        BlockVoxel { block_info_key_hash: grass, is_air: false, is_translucent: false }
                    } else if top - 3 < y {
                        BlockVoxel { block_info_key_hash: dirt, is_air: false, is_translucent: false }
                    } else {
                        BlockVoxel { block_info_key_hash: cobble, is_air: false, is_translucent: false }
                    }
                } else {
                    BlockVoxel::air()
                };
                let ghost cur: Cell = (x as int, y as int, z as int);
                let ghost before = voxels@;
                voxels.push(v);
                proof {
                    assert forall|c: Cell|
                        in_chunk(c) && linear_index(18, 18, c) < voxels@.len() implies voxels@[linear_index(18, 18, c)]
                            == flat_terrain_at(c, grass, dirt, cobble) by {
                        if linear_index(18, 18, c) == before.len() {
                            lemma_linear_injective(18, 18, c, cur);
                        }
                    }
                }
                x = x + 1;
            }
            y = y + 1;
        }
        z = z + 1;
    }
    let r = VoxelBuffer { size_x: n, size_y: n, size_z: n, voxels };
    proof {
        assert(r.wf());
        assert forall|c: Cell| r.in_bounds(c) implies #[trigger] r.voxel_at(c) == flat_terrain_at(c, grass, dirt, cobble) by {
            lemma_index_bounds(&r, c);
            assert(in_chunk(c));
            assert(r.index_of(c) == linear_index(18, 18, c));
        }
    }
    r
}

/// The voxels of a chunk of flat terrain, made of the base blocks grass, dirt
/// and cobblestone; none where one of them is not registered.
pub fn generate_flat_terrain(registry: &BlockInfoRegistry) -> (r: Option<VoxelBuffer>)
    requires
        registry.wf(),
    ensures
        r is Some <==> (registry.entries().contains_key(base_hash("grass"@))
            && registry.entries().contains_key(base_hash("dirt"@))
            && registry.entries().contains_key(base_hash("cobblestone"@))),
        r matches Some(b) ==> {
            &&& b.wf()
            &&& b.size_x == CHUNK_SIZE_OUTER && b.size_y == CHUNK_SIZE_OUTER && b.size_z == CHUNK_SIZE_OUTER
            &&& forall|c: Cell|
                b.in_bounds(c) ==> #[trigger] b.voxel_at(c) == flat_terrain_at(
                    c,
                    base_hash("grass"@),
                    base_hash("dirt"@),
                    base_hash("cobblestone"@),
                )
        },
{
    proof {
        registry.lemma_entries_named();
    }
    proof {
        reveal_strlit("potato_crust:grass");
        reveal_strlit("potato_crust:dirt");
        reveal_strlit("potato_crust:cobblestone");
        reveal_strlit("potato_crust");
        reveal_strlit("grass");
        reveal_strlit("dirt");
        reveal_strlit("cobblestone");
        assert("potato_crust:grass"@ =~= qualified_name(BASE_CATEGORY@, "grass"@));
        assert("potato_crust:dirt"@ =~= qualified_name(BASE_CATEGORY@, "dirt"@));
        assert("potato_crust:cobblestone"@ =~= qualified_name(BASE_CATEGORY@, "cobblestone"@));
    }
    let grass = match registry.get_block_info("potato_crust:grass") {
        Ok(info) => info.get_registry_name_hash(),
        Err(_) => return None,
    };
    let dirt = match registry.get_block_info("potato_crust:dirt") {
        Ok(info) => info.get_registry_name_hash(),
        Err(_) => return None,
    };
    let cobble = match registry.get_block_info("potato_crust:cobblestone") {
        Ok(info) => info.get_registry_name_hash(),
        Err(_) => return None,
    };
    Some(flat_terrain(grass, dirt, cobble))
}

} // verus!

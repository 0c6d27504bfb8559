use potato_crust::chunk::Chunk;
use potato_crust::block_info::{BlockInfoRegistry, ATLAS_TEXTURE_DIRT, ATLAS_TEXTURE_GRASS_SIDE, ATLAS_TEXTURE_GRASS_TOP, UNKNOWN_TEXTURE_ID};
use potato_crust::chunk_store::{ChunkState, ChunkStore};
use potato_crust::mesh_builder::build_chunk_mesh;
use potato_crust::mesher::VoxelBuffer;
use potato_crust::streaming::{ChunkIntents, ChunkPosition};
use potato_crust::terrain::{generate_flat_terrain, voxel_of_block};
use potato_crust::voxel::BlockVoxel;

fn pos(x: i32, y: i32, z: i32) -> ChunkPosition {
    ChunkPosition { x, y, z }
}

#[test]
fn load_resident_unload_round_trip_releases_its_mesh() {
    let mut store = ChunkStore::new();
    let p = pos(1, 0, -2);
    let mut uploaded = Vec::new();
    let mut released = Vec::new();
    assert!(store.request_load(p));
    assert_eq!(store.state(p), ChunkState::Loading);
    assert!(!store.request_load(p));
    uploaded.push(77u64);
    assert_eq!(store.finish_load(p, VoxelBuffer::new(3, 3, 3), 77), None);
    assert_eq!(store.state(p), ChunkState::Resident);
    assert_eq!(store.mesh(p), Some(77));
    assert!(store.voxels(p).is_some());
    assert!(!store.request_load(p));
    if let Some(h) = store.request_unload(p) {
        released.push(h);
    }
    assert_eq!(store.state(p), ChunkState::Unloading);
    assert!(store.voxels(p).is_none());
    store.finish_unload(p);
    assert_eq!(store.state(p), ChunkState::Absent);
    assert_eq!(store.request_unload(p), None);
    assert_eq!(uploaded, released);
    assert!(store.live_positions().is_empty());
}

#[test]
fn late_or_failed_loads_leave_no_mesh_behind() {
    let mut store = ChunkStore::new();
    let p = pos(0, 0, 0);
    let q = pos(0, 1, 0);
    assert_eq!(store.finish_load(p, VoxelBuffer::new(3, 3, 3), 5), Some(5));
    assert!(store.request_load(p));
    assert_eq!(store.request_unload(p), None);
    assert_eq!(store.state(p), ChunkState::Absent);
    assert_eq!(store.finish_load(p, VoxelBuffer::new(3, 3, 3), 6), Some(6));
    assert!(store.request_load(q));
    store.fail_load(q);
    assert_eq!(store.state(q), ChunkState::Absent);
    assert!(store.request_load(q));
    assert!(store.request_load(p));
    assert_eq!(store.live_positions(), vec![q, p]);
}

#[test]
fn single_block_mesh_has_six_quads() {
    let registry = BlockInfoRegistry::initialize().expect("base blocks register");
    let grass_hash = fasthash::city::hash64("potato_crust:grass".as_bytes());
    let mut buffer = VoxelBuffer::new(3, 3, 3);
    buffer.set(1, 1, 1, BlockVoxel { block_info_key_hash: grass_hash, is_air: false, is_translucent: false });
    let mesh = build_chunk_mesh(&buffer, pos(0, 0, 0), &registry);
    assert_eq!(mesh.positions.len(), 24);
    assert_eq!(mesh.normals.len(), 24);
    assert_eq!(mesh.uvs.len(), 24);
    assert_eq!(mesh.texture_ids.len(), 24);
    assert_eq!(mesh.indices.len(), 36);
    assert_eq!(&mesh.positions[0..4], &[(-7, -7, -7), (-7, -7, -6), (-7, -6, -7), (-7, -6, -6)]);
    assert_eq!(&mesh.normals[0..4], &[(-1, 0, 0); 4]);
    assert_eq!(&mesh.uvs[0..4], &[(0, 1), (1, 1), (0, 0), (1, 0)]);
    assert_eq!(&mesh.indices[0..6], &[0, 1, 2, 1, 3, 2]);
    assert_eq!(&mesh.indices[6..12], &[4, 6, 5, 5, 6, 7]);
    // +X face lies on the far side of the cell.
    assert_eq!(mesh.positions[12], (-6, -7, -7));
    let per_quad: Vec<u32> = mesh.texture_ids.chunks(4).map(|c| c[0]).collect();
    assert_eq!(
        per_quad,
        vec![
            ATLAS_TEXTURE_GRASS_SIDE,
            ATLAS_TEXTURE_DIRT,
            ATLAS_TEXTURE_GRASS_SIDE,
            ATLAS_TEXTURE_GRASS_SIDE,
            ATLAS_TEXTURE_GRASS_TOP,
            ATLAS_TEXTURE_GRASS_SIDE
        ]
    );
}

#[test]
fn unknown_blocks_get_the_unknown_texture_and_chunk_offset() {
    let registry = BlockInfoRegistry::new();
    let mut buffer = VoxelBuffer::new(4, 3, 3);
    buffer.set(1, 1, 1, BlockVoxel { block_info_key_hash: 99, is_air: false, is_translucent: false });
    buffer.set(2, 1, 1, BlockVoxel { block_info_key_hash: 99, is_air: false, is_translucent: false });
    let mesh = build_chunk_mesh(&buffer, pos(1, 0, -1), &registry);
    assert_eq!(mesh.positions.len(), 24);
    assert!(mesh.texture_ids.iter().all(|t| *t == UNKNOWN_TEXTURE_ID));
    assert_eq!(mesh.positions[0], (16 + 1 - 8, 1 - 8, -16 + 1 - 8));
    // The -Y face merges the two cells into one quad of width 1 along z and height 2 along x.
    assert_eq!(&mesh.uvs[4..8], &[(1, 2), (0, 2), (1, 0), (0, 0)]);
}

#[test]
fn flat_terrain_layers_and_mesh() {
    let registry = BlockInfoRegistry::initialize().expect("base blocks register");
    let grass = fasthash::city::hash64("potato_crust:grass".as_bytes());
    let dirt = fasthash::city::hash64("potato_crust:dirt".as_bytes());
    let cobble = fasthash::city::hash64("potato_crust:cobblestone".as_bytes());
    let buffer = generate_flat_terrain(&registry).expect("base blocks are there");
    assert_eq!(buffer.get(5, 16, 5).block_info_key_hash, grass);
    assert_eq!(buffer.get(5, 15, 5).block_info_key_hash, dirt);
    assert_eq!(buffer.get(5, 14, 5).block_info_key_hash, dirt);
    assert_eq!(buffer.get(5, 13, 5).block_info_key_hash, cobble);
    assert_eq!(buffer.get(1, 1, 1).block_info_key_hash, cobble);
    assert_eq!(buffer.get(0, 5, 5), BlockVoxel::air());
    assert_eq!(buffer.get(5, 17, 5), BlockVoxel::air());
    let mesh = build_chunk_mesh(&buffer, pos(0, 0, 0), &registry);
    // Sides: one quad per material band; top and bottom: one quad each.
    assert_eq!(mesh.positions.len() / 4, 4 * 3 + 2);
    assert!(generate_flat_terrain(&BlockInfoRegistry::new()).is_none());
}

#[test]
fn blocks_become_voxels() {
    let registry = BlockInfoRegistry::initialize().expect("base blocks register");
    let dirt = registry.get_block_info("potato_crust:dirt").expect("dirt");
    let v = voxel_of_block(Some(dirt));
    assert_eq!(v.block_info_key_hash, fasthash::city::hash64("potato_crust:dirt".as_bytes()));
    assert!(!v.is_air);
    assert_eq!(voxel_of_block(None), BlockVoxel::air());
}

#[test]
fn chunk_fills_and_meshes_itself() {
    let registry = BlockInfoRegistry::initialize().expect("base blocks register");
    let mut chunk = Chunk::new(pos(2, 0, 3));
    assert_eq!(chunk.get_block(15, 15, 15), None);
    assert!(chunk.serialize_voxels_to_render_mesh(&registry).positions.is_empty());
    assert!(chunk.update_voxels(&registry));
    let mesh = chunk.serialize_voxels_to_render_mesh(&registry);
    assert_eq!(mesh.indices.len(), 14 * 6);
    assert_eq!(mesh.positions[0], (32 + 1 - 8, 1 - 8, 48 + 1 - 8));
    let mut empty = Chunk::new(pos(0, 0, 0));
    assert!(!empty.update_voxels(&BlockInfoRegistry::new()));
}

#[test]
fn full_checkerboard_chunk_has_a_quad_per_exposed_face() {
    let registry = BlockInfoRegistry::initialize().expect("base blocks register");
    let dirt = fasthash::city::hash64("potato_crust:dirt".as_bytes());
    let mut chunk = Chunk::new(pos(0, 0, 0));
    for z in 1..17 {
        for y in 1..17 {
            for x in 1..17 {
                if (x + y + z) % 2 == 0 {
                    chunk.voxels.set(x, y, z, BlockVoxel { block_info_key_hash: dirt, is_air: false, is_translucent: false });
                }
            }
        }
    }
    let mesh = chunk.serialize_voxels_to_render_mesh(&registry);
    assert_eq!(mesh.positions.len(), 6 * 2048 * 4);
    assert_eq!(mesh.indices.len(), 6 * 2048 * 6);
    assert!(mesh.texture_ids.iter().all(|t| *t == ATLAS_TEXTURE_DIRT));
}

#[test]
fn intents_unload_before_they_load() {
    let mut store = ChunkStore::new();
    let a = pos(0, 0, 0);
    let b = pos(1, 0, 0);
    assert!(store.request_load(a));
    assert_eq!(store.finish_load(a, VoxelBuffer::new(3, 3, 3), 11), None);
    let intents = ChunkIntents { unload: vec![a, pos(9, 9, 9)], load: vec![b, a] };
    let (released, started) = store.apply_intents(&intents);
    assert_eq!(released, vec![11]);
    assert_eq!(started, vec![b, a]);
    assert_eq!(store.state(a), ChunkState::Loading);
    assert_eq!(store.mesh(a), None);
    assert_eq!(store.state(b), ChunkState::Loading);
}

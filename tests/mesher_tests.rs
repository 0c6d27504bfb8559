use potato_crust::mesher::{greedy_quads, Quad, VoxelBuffer};
use potato_crust::voxel::{BlockVoxel, VoxelVisibility};

fn solid(hash: u64) -> BlockVoxel {
    BlockVoxel { block_info_key_hash: hash, is_air: false, is_translucent: false }
}

fn glass(hash: u64) -> BlockVoxel {
    BlockVoxel { block_info_key_hash: hash, is_air: false, is_translucent: true }
}

fn filled(n: usize, v: BlockVoxel) -> VoxelBuffer {
    let mut b = VoxelBuffer::new(n, n, n);
    for z in 1..n - 1 {
        for y in 1..n - 1 {
            for x in 1..n - 1 {
                b.set(x, y, z, v);
            }
        }
    }
    b
}

fn naive_faces(b: &VoxelBuffer, n: usize) -> [usize; 6] {
    let dirs: [(i64, i64, i64); 6] = [(-1, 0, 0), (0, -1, 0), (0, 0, -1), (1, 0, 0), (0, 1, 0), (0, 0, 1)];
    let mut out = [0usize; 6];
    for (g, d) in dirs.iter().enumerate() {
        for z in 1..n - 1 {
            for y in 1..n - 1 {
                for x in 1..n - 1 {
                    let v = b.get(x, y, z);
                    let nb = b.get((x as i64 + d.0) as usize, (y as i64 + d.1) as usize, (z as i64 + d.2) as usize);
                    if v.shows_face_towards(&nb) {
                        out[g] += 1;
                    }
                }
            }
        }
    }
    out
}

#[test]
fn voxel_visibility_classes() {
    assert_eq!(BlockVoxel::air().get_visibility(), VoxelVisibility::Empty);
    assert_eq!(BlockVoxel::default(), BlockVoxel::air());
    assert_eq!(solid(0).get_visibility(), VoxelVisibility::Empty);
    assert_eq!(solid(7).get_visibility(), VoxelVisibility::Opaque);
    assert_eq!(glass(7).get_visibility(), VoxelVisibility::Translucent);
    let air_with_hash = BlockVoxel { block_info_key_hash: 9, is_air: true, is_translucent: false };
    assert_eq!(air_with_hash.get_visibility(), VoxelVisibility::Empty);
    assert_eq!(solid(7).merge_value(), (false, false, 7));
    assert_eq!(glass(7).merge_value_facing_neighbour(), (false, true, 7));
    assert!(!solid(7).same_merge_key(&solid(8)));
    assert!(solid(7).shows_face_towards(&glass(3)));
    assert!(!glass(7).shows_face_towards(&glass(3)));
    assert!(!solid(7).shows_face_towards(&solid(3)));
}

#[test]
fn uniform_chunk_gives_one_quad_per_face() {
    let n = 18;
    let b = filled(n, solid(42));
    let groups = greedy_quads(&b, [1, 1, 1], [n - 1, n - 1, n - 1]);
    assert_eq!(groups.len(), 6);
    let expected_corners = [(1, 1, 1), (1, 1, 1), (1, 1, 1), (16, 1, 1), (1, 16, 1), (1, 1, 16)];
    for (g, quads) in groups.iter().enumerate() {
        assert_eq!(quads.len(), 1);
        let q = quads[0];
        assert_eq!((q.x, q.y, q.z), expected_corners[g]);
        assert_eq!((q.width, q.height), (16, 16));
    }
}

#[test]
fn translucent_block_merges_only_on_its_outside() {
    let n = 6;
    let b = filled(n, glass(5));
    let groups = greedy_quads(&b, [1, 1, 1], [n - 1, n - 1, n - 1]);
    for quads in groups.iter() {
        assert_eq!(quads.len(), 1);
        assert_eq!((quads[0].width, quads[0].height), (4, 4));
    }
}

#[test]
fn checkerboard_gives_one_quad_per_exposed_face() {
    let n = 6;
    let mut b = VoxelBuffer::new(n, n, n);
    for z in 1..n - 1 {
        for y in 1..n - 1 {
            for x in 1..n - 1 {
                if (x + y + z) % 2 == 0 {
                    b.set(x, y, z, solid(3));
                }
            }
        }
    }
    let groups = greedy_quads(&b, [1, 1, 1], [n - 1, n - 1, n - 1]);
    let naive = naive_faces(&b, n);
    for (g, quads) in groups.iter().enumerate() {
        // 4 x 4 x 4 interior: 32 solid cells, every face exposed.
        assert_eq!(quads.len(), 32);
        assert_eq!(quads.len(), naive[g]);
        for q in quads.iter() {
            assert_eq!((q.width, q.height), (1, 1));
            assert_eq!((q.x + q.y + q.z) % 2, 0);
        }
    }
}

#[test]
fn quads_never_exceed_naive_faces_and_rerun_is_identical() {
    let n = 7;
    let mut b = VoxelBuffer::new(n, n, n);
    let mut seed: u64 = 12345;
    for z in 1..n - 1 {
        for y in 1..n - 1 {
            for x in 1..n - 1 {
                seed = seed.wrapping_mul(6364136223846793005).wrapping_add(1442695040888963407);
                let pick = (seed >> 33) % 4;
                let v = match pick {
                    0 => BlockVoxel::air(),
                    1 => solid(1),
                    2 => solid(2),
                    _ => glass(3),
                };
                b.set(x, y, z, v);
            }
        }
    }
    let first = greedy_quads(&b, [1, 1, 1], [n - 1, n - 1, n - 1]);
    let second = greedy_quads(&b, [1, 1, 1], [n - 1, n - 1, n - 1]);
    assert_eq!(first, second);
    let naive = naive_faces(&b, n);
    for (g, quads) in first.iter().enumerate() {
        assert!(quads.len() <= naive[g]);
        let area: usize = quads.iter().map(|q: &Quad| q.width * q.height).sum();
        assert_eq!(area, naive[g]);
    }
}

#[test]
fn halo_is_never_the_origin_of_a_quad() {
    let n = 5;
    let mut b = VoxelBuffer::new(n, n, n);
    b.set(0, 2, 2, solid(9));
    b.set(2, 2, 2, solid(9));
    let groups = greedy_quads(&b, [1, 1, 1], [n - 1, n - 1, n - 1]);
    let total: usize = groups.iter().map(|g| g.len()).sum();
    assert_eq!(total, 6);
    for quads in groups.iter() {
        assert_eq!((quads[0].x, quads[0].y, quads[0].z), (2, 2, 2));
    }
}

#[test]
fn buffer_indexing_is_x_fastest() {
    let b = VoxelBuffer::new(3, 4, 5);
    assert_eq!(b.voxels.len(), 60);
    assert_eq!(b.linearize(1, 2, 3), 1 + 3 * (2 + 4 * 3));
}

#[test]
fn faces_merge_whatever_their_empty_neighbours_hold() {
    let n = 5;
    let mut b = VoxelBuffer::new(n, n, n);
    b.set(1, 1, 1, solid(4));
    b.set(2, 1, 1, solid(4));
    // Above the second block: not air, but hash 0, so empty all the same.
    b.set(2, 2, 1, BlockVoxel { block_info_key_hash: 0, is_air: false, is_translucent: false });
    let groups = greedy_quads(&b, [1, 1, 1], [n - 1, n - 1, n - 1]);
    let up = &groups[4];
    assert_eq!(up.len(), 1);
    assert_eq!((up[0].x, up[0].y, up[0].z, up[0].width, up[0].height), (1, 1, 1, 1, 2));
}

#[test]
fn faces_merge_against_different_translucent_neighbours() {
    let n = 5;
    let mut b = VoxelBuffer::new(n, n, n);
    b.set(1, 1, 1, solid(4));
    b.set(2, 1, 1, solid(4));
    b.set(1, 2, 1, glass(6));
    b.set(2, 2, 1, glass(7));
    let groups = greedy_quads(&b, [1, 1, 1], [n - 1, n - 1, n - 1]);
    let up = &groups[4];
    // One quad over both opaque blocks, one for each glass block's top.
    assert_eq!(up.len(), 3);
    assert_eq!((up[0].x, up[0].y, up[0].z, up[0].width, up[0].height), (1, 1, 1, 1, 2));
}

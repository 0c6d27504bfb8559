use potato_crust::block_info::{
    block_cobblestone, block_dirt, block_grass, resolve_face_texture, BlockInfo, BlockInfoError,
    BlockInfoRegistry, BlockSide, BlockSides, ATLAS_TEXTURE_DIRT, ATLAS_TEXTURE_GRASS_SIDE,
    ATLAS_TEXTURE_GRASS_TOP, UNKNOWN_TEXTURE_ID,
};

const FACE_NORMALS: [[i32; 3]; 6] = [[-1, 0, 0], [0, -1, 0], [0, 0, -1], [1, 0, 0], [0, 1, 0], [0, 0, 1]];

#[test]
fn registering_a_name_twice_is_a_duplicate() {
    let mut registry = BlockInfoRegistry::new();
    let first = registry.register("cat", block_dirt());
    assert_eq!(first, Ok("cat:dirt".to_string()));
    let second = registry.register("cat", block_dirt());
    assert_eq!(second, Err(BlockInfoError::DuplicateRegistration("cat:dirt".to_string())));
}

#[test]
fn only_all_texture_is_used_for_every_face() {
    let info = BlockInfo {
        category: None,
        name: "stone".to_string(),
        is_translucent: false,
        sides: BlockSides::new_for_all(7),
    };
    for normal in FACE_NORMALS.iter() {
        assert_eq!(resolve_face_texture(&info, *normal), 7);
    }
}

#[test]
fn grass_resolves_top_bottom_and_sides() {
    let grass = block_grass();
    assert_eq!(resolve_face_texture(&grass, [0, 1, 0]), ATLAS_TEXTURE_GRASS_TOP);
    assert_eq!(resolve_face_texture(&grass, [0, -1, 0]), ATLAS_TEXTURE_DIRT);
    assert_eq!(resolve_face_texture(&grass, [1, 0, 0]), ATLAS_TEXTURE_GRASS_SIDE);
    assert_eq!(resolve_face_texture(&grass, [0, 0, -1]), ATLAS_TEXTURE_GRASS_SIDE);
}

#[test]
fn unset_textures_fall_back_to_unknown() {
    let info = BlockInfo {
        category: None,
        name: "void".to_string(),
        is_translucent: false,
        sides: BlockSides { all: None, front: Some(4), back: None, left: None, right: None, top: None, bottom: None },
    };
    assert_eq!(resolve_face_texture(&info, [0, 0, 1]), 4);
    assert_eq!(resolve_face_texture(&info, [0, 1, 0]), UNKNOWN_TEXTURE_ID);
}

#[test]
fn normals_match_sides_with_ties_to_the_first() {
    assert_eq!(BlockSide::match_normal_vector([0, 0, 1]), BlockSide::Front);
    assert_eq!(BlockSide::match_normal_vector([0, 0, -1]), BlockSide::Back);
    assert_eq!(BlockSide::match_normal_vector([-1, 0, 0]), BlockSide::Left);
    assert_eq!(BlockSide::match_normal_vector([1, 0, 0]), BlockSide::Right);
    assert_eq!(BlockSide::match_normal_vector([0, 1, 0]), BlockSide::Top);
    assert_eq!(BlockSide::match_normal_vector([0, -1, 0]), BlockSide::Bottom);
    assert_eq!(BlockSide::match_normal_vector([0, 0, 0]), BlockSide::Front);
    assert_eq!(BlockSide::match_normal_vector([2, 2, 0]), BlockSide::Right);
    assert_eq!(BlockSide::match_normal_vector([1, 3, -2]), BlockSide::Top);
    assert_eq!(BlockSide::match_normal_vector([i32::MIN, 0, 0]), BlockSide::Left);
}

#[test]
fn side_textures_fall_back_to_all() {
    let sides = BlockSides::new_for_side(BlockSide::Top, 9, 2);
    assert_eq!(sides.get_side_texture_id(BlockSide::Top), Some(9));
    assert_eq!(sides.get_side_texture_id(BlockSide::Left), Some(2));
    let none = BlockSides { all: None, front: None, back: None, left: None, right: None, top: None, bottom: None };
    assert_eq!(none.get_side_texture_id(BlockSide::Back), None);
}

#[test]
fn registry_names_and_hashes() {
    let mut dirt = block_dirt();
    assert_eq!(dirt.get_registry_name(), "dirt");
    dirt.category = Some("potato_crust".to_string());
    assert_eq!(dirt.get_registry_name(), "potato_crust:dirt");
    assert_eq!(dirt.get_registry_name_hash(), fasthash::city::hash64("potato_crust:dirt".as_bytes()));
    assert_ne!(dirt.get_registry_name_hash(), block_dirt().get_registry_name_hash());
}

#[test]
fn lookups_find_registered_blocks_only() {
    let registry = BlockInfoRegistry::initialize().expect("base blocks register");
    let grass = registry.get_block_info("potato_crust:grass").expect("grass is registered");
    assert_eq!(grass.name, "grass");
    assert_eq!(grass.category.as_deref(), Some("potato_crust"));
    let hash = fasthash::city::hash64("potato_crust:cobblestone".as_bytes());
    let cobble = registry.get_block_info_by_hash(hash).expect("cobblestone is registered");
    assert_eq!(cobble.name, block_cobblestone().name);
    assert!(matches!(registry.get_block_info("potato_crust:lava"), Err(BlockInfoError::NotFound)));
    assert!(matches!(registry.get_block_info("grass"), Err(BlockInfoError::NotFound)));
    assert!(matches!(registry.get_block_info_by_hash(0), Err(BlockInfoError::NotFound)));
}

#[test]
fn base_blocks_are_registered_with_their_textures() {
    let registry = BlockInfoRegistry::initialize().expect("base blocks register");
    let grass = registry.get_block_info("potato_crust:grass").expect("grass");
    assert_eq!(grass.get_side_texture_id(BlockSide::Top), Some(ATLAS_TEXTURE_GRASS_TOP));
    let dirt = registry.get_block_info("potato_crust:dirt").expect("dirt");
    let cobble = registry.get_block_info("potato_crust:cobblestone").expect("cobblestone");
    for normal in FACE_NORMALS.iter() {
        assert_eq!(resolve_face_texture(dirt, *normal), ATLAS_TEXTURE_DIRT);
        assert_eq!(resolve_face_texture(cobble, *normal), 3);
    }
    assert_eq!(dirt.category.as_deref(), Some("potato_crust"));
}

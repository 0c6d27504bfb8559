use potato_crust::streaming::{
    chunk_of_block, is_chunk_in_radius, on_world_update, ChunkPosition, StreamingConfig,
};

fn pos(x: i32, y: i32, z: i32) -> ChunkPosition {
    ChunkPosition { x, y, z }
}

fn config() -> StreamingConfig {
    StreamingConfig { horizontal_radius: 5, vertical_multiplier: 2, world_height_chunks: 16 }
}

#[test]
fn first_tick_loads_everything_in_radius() {
    let cfg = config();
    let intents = on_world_update(Some(pos(0, 0, 0)), &Vec::new(), cfg);
    assert!(intents.unload.is_empty());
    // 37 columns with x*x + z*z <= 10, on the 11 layers y = 0..=10.
    assert_eq!(intents.load.len(), 407);
    let mut expected = Vec::new();
    for y in 0..=10 {
        for x in -5..=5 {
            for z in -5..=5 {
                if x * x + z * z <= 10 {
                    expected.push(pos(x, y, z));
                }
            }
        }
    }
    assert_eq!(intents.load, expected);
    assert_eq!(intents.load[0], pos(-3, 0, -1));
    assert_eq!(intents.load[406], pos(3, 10, 1));
}

#[test]
fn moving_away_unloads_each_old_chunk_once() {
    let cfg = config();
    let first = on_world_update(Some(pos(0, 0, 0)), &Vec::new(), cfg);
    let resident = first.load.clone();
    let second = on_world_update(Some(pos(10, 0, 0)), &resident, cfg);
    assert_eq!(second.unload, resident);
    assert_eq!(second.load.len(), 407);
    for c in second.load.iter() {
        assert!(!second.unload.contains(c));
        assert!(c.x >= 7 && c.x <= 13);
    }
}

#[test]
fn kept_chunks_are_not_loaded_again() {
    let cfg = config();
    let resident = vec![pos(0, 0, 0), pos(1, 2, 1), pos(9, 0, 0)];
    let intents = on_world_update(Some(pos(0, 0, 0)), &resident, cfg);
    assert_eq!(intents.unload, vec![pos(9, 0, 0)]);
    assert_eq!(intents.load.len(), 405);
    assert!(!intents.load.contains(&pos(0, 0, 0)));
    assert!(!intents.load.contains(&pos(1, 2, 1)));
}

#[test]
fn no_viewer_means_no_intents() {
    let intents = on_world_update(None, &vec![pos(100, 0, 0)], config());
    assert!(intents.unload.is_empty());
    assert!(intents.load.is_empty());
}

#[test]
fn radius_ignores_height() {
    let cfg = config();
    assert!(is_chunk_in_radius(pos(0, 100, 0), pos(0, 0, 0), cfg));
    assert!(is_chunk_in_radius(pos(3, 0, 1), pos(0, 0, 0), cfg));
    assert!(!is_chunk_in_radius(pos(3, 0, 2), pos(0, 0, 0), cfg));
    let flat = StreamingConfig { horizontal_radius: 5, vertical_multiplier: 0, world_height_chunks: 1 };
    assert!(is_chunk_in_radius(pos(2, 0, 1), pos(0, 0, 0), flat));
    assert!(!is_chunk_in_radius(pos(2, 0, 2), pos(0, 0, 0), flat));
    assert!(!is_chunk_in_radius(pos(i32::MAX, 0, 0), pos(i32::MIN, 0, 0), cfg));
}

#[test]
fn world_height_bounds_the_load_box() {
    let cfg = StreamingConfig { horizontal_radius: 1, vertical_multiplier: 1, world_height_chunks: 1 };
    let intents = on_world_update(Some(pos(0, 0, 0)), &Vec::new(), cfg);
    assert_eq!(intents.load, vec![pos(-1, 0, 0), pos(0, 0, -1), pos(0, 0, 0), pos(0, 0, 1), pos(1, 0, 0)]);
    let empty = StreamingConfig { horizontal_radius: 1, vertical_multiplier: 1, world_height_chunks: 0 };
    assert!(on_world_update(Some(pos(0, 0, 0)), &Vec::new(), empty).load.is_empty());
}

#[test]
fn viewer_chunk_rounds_down() {
    assert_eq!(chunk_of_block(0, 15, 16), pos(0, 0, 1));
    assert_eq!(chunk_of_block(-1, -16, -17), pos(-1, -1, -2));
    assert_eq!(chunk_of_block(i32::MIN, i32::MAX, 33), pos(-134217728, 134217727, 2));
}

#[test]
fn negative_radius_loads_nothing() {
    let cfg = StreamingConfig { horizontal_radius: -1, vertical_multiplier: 2, world_height_chunks: 16 };
    let intents = on_world_update(Some(pos(0, 0, 0)), &vec![pos(0, 0, 0)], cfg);
    assert!(intents.load.is_empty());
    assert_eq!(intents.unload, vec![pos(0, 0, 0)]);
}

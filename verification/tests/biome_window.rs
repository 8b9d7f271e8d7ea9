use texture_scan::biome_cache::{plan_window, BiomeCacheManager, BiomeWindow};

/// The synthetic point oracle the windows below are generated from.
fn oracle(x: i32, z: i32) -> i32 {
    x.wrapping_mul(1000).wrapping_add(z)
}

fn generated_window(origin_x: i32, origin_z: i32, width: i32, depth: i32) -> BiomeWindow {
    let mut buffer = Vec::new();
    for row in 0..depth {
        for col in 0..width {
            buffer.push(oracle(origin_x + col, origin_z + row));
        }
    }
    BiomeWindow::new(origin_x, origin_z, width, depth, buffer)
}

#[test]
fn query_matches_direct_point_query() {
    let w = generated_window(-3, 7, 11, 5);
    for x in -3..8 {
        for z in 7..12 {
            assert_eq!(w.get_biome_at(x, z), oracle(x, z));
        }
    }
}

#[test]
fn bounds_check_matches_rectangle() {
    let w = generated_window(10, -2, 4, 3);
    assert!(w.is_in_bounds(10, -2));
    assert!(w.is_in_bounds(13, 0));
    assert!(!w.is_in_bounds(14, 0));
    assert!(!w.is_in_bounds(9, 0));
    assert!(!w.is_in_bounds(10, 1));
    assert!(!w.is_in_bounds(10, -3));
}

#[test]
fn planned_window_is_anchored_and_spans_z() {
    let req = plan_window(100, 100000, -50, 49, 4_000_000);
    assert_eq!(req.x, 100);
    assert_eq!(req.z, -50);
    assert_eq!(req.depth, 100);
    // 4,000,000 cells over a depth of 100 rows gives 40,000 columns.
    assert_eq!(req.width, 40_000);
}

#[test]
fn planned_window_is_clamped_to_remaining_extent() {
    let req = plan_window(0, 99, 0, 9, 4_000_000);
    assert_eq!(req.width, 100);
    assert_eq!(req.depth, 10);
}

#[test]
fn cache_manager_regenerates_on_miss_and_serves_hits() {
    let mut cache = BiomeCacheManager::new();
    assert_eq!(cache.lookup(3, 1), None, "an empty cache must miss");

    // The scan reacts to the miss: plan a rectangle at the cursor, generate
    // it (here from the synthetic oracle) and install it.
    let req = plan_window(3, 20, 0, 4, 30);
    assert_eq!((req.x, req.z, req.width, req.depth), (3, 0, 6, 5));
    cache.install(generated_window(req.x, req.z, req.width, req.depth));
    assert_eq!(cache.probe_count, 0);

    for x in 3..9 {
        for z in 0..5 {
            assert_eq!(cache.lookup(x, z), Some(oracle(x, z)));
        }
    }
    assert_eq!(cache.probe_count, 30);

    // Past the window's right edge the cache must miss again.
    assert_eq!(cache.lookup(9, 0), None);
    assert_eq!(cache.probe_count, 30);
}

#[test]
fn planned_window_is_at_least_one_column() {
    let req = plan_window(5, 500, 0, 999, 100);
    assert_eq!(req.width, 1);
    assert_eq!(req.depth, 1000);
}

use texture_scan::biome_cache::BiomeWindow;
use texture_scan::config::{build_finder, ConfigError, ScanConfig};
use texture_scan::placement::Placement;
use texture_scan::rotation_info::RotationInfo;
use texture_scan::texture_finder::{MatchRecord, TextureFinder};
use texture_scan::texture_provider::{SodiumTextures, TextureProvider, VanillaTextures};

fn vanilla_finder(
    formation: &[RotationInfo],
    start_x: i32,
    end_x: i32,
    y_min: i32,
    y_max: i32,
    z_min: i32,
    z_max: i32,
    enumerate_rotations: bool,
    enumerate_mirror: bool,
) -> TextureFinder<VanillaTextures> {
    TextureFinder {
        start_x,
        end_x,
        y_min,
        y_max,
        z_min,
        z_max,
        textures: VanillaTextures {},
        placement: Placement::new(formation),
        enumerate_rotations,
        enumerate_mirror,
    }
}

#[test]
fn end_to_end_single_block_scenario() {
    let formation = [RotationInfo::new(-6, 1, 0, 3, false)];
    let finder = vanilla_finder(&formation, 0, 0, 60, 140, 0, 0, false, false);
    let matches = finder.run();

    let oracle = VanillaTextures {};
    let expected_ys: Vec<i32> =
        (60..=140).filter(|&y| oracle.get_texture(-6, y + 1, 0, 4) == 3).collect();
    assert_eq!(
        expected_ys,
        vec![
            64, 68, 69, 72, 76, 77, 79, 88, 90, 92, 97, 99, 101, 104, 105, 106, 108, 122, 125,
            127, 128, 132, 136
        ]
    );

    let found_ys: Vec<i32> = matches.iter().map(|m| m.y).collect();
    assert_eq!(found_ys, expected_ys, "exactly the matching heights are reported");
    for m in &matches {
        assert_eq!((m.x, m.z), (0, 0));
        assert_eq!((m.rotation_offset, m.mirrored), (0, false));
        assert_eq!(m.failures, 0);
        assert_eq!(m.biome_id, None);
    }
}

#[test]
fn tolerance_only_enlarges_the_reported_set() {
    let formation = [
        RotationInfo::new(0, 0, 0, 3, false),
        RotationInfo::new(1, 0, 0, 2, false),
        RotationInfo::new(0, 1, 0, 1, true),
    ];
    let finder = vanilla_finder(&formation, -10, 10, 60, 70, -10, 10, false, true);
    let strict = finder.run_with_tolerance(0);
    let loose = finder.run_with_tolerance(1);
    let looser = finder.run_with_tolerance(2);
    assert!(strict.len() <= loose.len());
    assert!(loose.len() <= looser.len());
    for m in &strict {
        assert!(loose.contains(m), "a strict match disappeared at tolerance 1: {:?}", m);
    }
    for m in &loose {
        assert!(looser.contains(m), "a tolerance-1 match disappeared at tolerance 2: {:?}", m);
    }
    assert!(!looser.is_empty(), "with tolerance 2 of 3 blocks some candidate must pass");
}

#[test]
fn exact_run_agrees_with_zero_tolerance() {
    let formation = [RotationInfo::new(2, -1, 1, 1, false), RotationInfo::new(0, 0, 0, 0, true)];
    let finder = vanilla_finder(&formation, -5, 5, 60, 65, -5, 5, false, false);
    assert_eq!(finder.run(), finder.run_with_tolerance(0));
}

#[test]
fn symmetry_enumeration_tries_all_eight_transforms() {
    let b = RotationInfo::new(3, 1, -2, 2, false);
    let formation = [b];
    let finder = TextureFinder {
        start_x: 0,
        end_x: 2,
        y_min: 60,
        y_max: 62,
        z_min: 0,
        z_max: 2,
        textures: SodiumTextures {},
        placement: Placement::new(&formation),
        enumerate_rotations: true,
        enumerate_mirror: true,
    };
    let matches = finder.run();
    let oracle = SodiumTextures {};
    for x in 0..=2 {
        for y in 60..=62 {
            for z in 0..=2 {
                let mut expected: Vec<(i32, bool)> = Vec::new();
                for mirrored in [false, true] {
                    for rot in 0..4 {
                        let dx = if mirrored { -b.x } else { b.x };
                        let dz = if mirrored { -b.z } else { b.z };
                        let observed = oracle.get_texture(x + dx, y + b.y, z + dz, 4);
                        let adjusted = (observed + rot + if mirrored { 2 } else { 0 }) % 4;
                        if b.rotation == adjusted {
                            expected.push((rot, mirrored));
                        }
                    }
                }
                let mut found: Vec<(i32, bool)> = matches
                    .iter()
                    .filter(|m| (m.x, m.y, m.z) == (x, y, z))
                    .map(|m| (m.rotation_offset, m.mirrored))
                    .collect();
                found.sort();
                let mut expected_sorted = expected.clone();
                expected_sorted.sort();
                assert_eq!(found, expected_sorted, "transforms reported at {:?}", (x, y, z));
                assert!(found.len() <= 8);
            }
        }
    }
}

#[test]
fn biome_filter_skips_columns_outside_the_filter_set() {
    let formation = [RotationInfo::new(1, 0, 0, 2, false)];
    let finder = vanilla_finder(&formation, 0, 4, 60, 64, 0, 4, false, false);

    // Columns with even X carry biome 7, the rest biome 9.
    let mut buffer = Vec::new();
    for _z in 0..5 {
        for x in 0..5 {
            buffer.push(if x % 2 == 0 { 7 } else { 9 });
        }
    }
    let window = BiomeWindow::new(0, 0, 5, 5, buffer);
    let filter = vec![7];
    let filtered = finder.run_filtered(&window, &filter, 0);

    for m in &filtered {
        assert_eq!(m.x % 2, 0, "columns with biome 9 must be skipped");
        assert_eq!(m.biome_id, Some(7));
        assert_eq!(m.failures, 0);
    }

    let unfiltered = finder.run();
    let expected: Vec<MatchRecord> = unfiltered
        .iter()
        .filter(|m| m.x % 2 == 0)
        .map(|m| MatchRecord { biome_id: Some(7), ..*m })
        .collect();
    assert_eq!(filtered, expected);
}

fn base_config() -> ScanConfig {
    ScanConfig {
        x_min: 0,
        x_max: 100,
        y_min: 60,
        y_max: 70,
        z_min: -10,
        z_max: 10,
        threads: 4,
        formation: vec![RotationInfo::new(0, 0, 0, 1, false), RotationInfo::new(1, 0, 0, 2, false)],
        max_failures: None,
        enumerate_rotations: false,
        enumerate_mirror: true,
        filter_for_biome_ids: Vec::new(),
    }
}

#[test]
fn whole_domain_scan_is_independent_of_the_worker_count() {
    let mut config = base_config();
    config.x_min = -8;
    config.x_max = 8;
    config.max_failures = Some(1);
    config.threads = 3;
    let three_workers = config.run_scan(VanillaTextures {});

    config.threads = 1;
    let one_worker = config.run_scan(VanillaTextures {});
    assert_eq!(three_workers, one_worker);

    let whole = vanilla_finder(
        &config.formation,
        config.x_min,
        config.x_max,
        config.y_min,
        config.y_max,
        config.z_min,
        config.z_max,
        config.enumerate_rotations,
        config.enumerate_mirror,
    );
    assert_eq!(one_worker, whole.run_with_tolerance(1));
    assert!(!one_worker.is_empty());
}

#[test]
fn validation_accepts_a_sane_configuration() {
    assert_eq!(base_config().validate(), Ok(()));
}

#[test]
fn validation_rejects_unordered_axes() {
    let mut c = base_config();
    c.x_min = 5;
    c.x_max = 5;
    assert_eq!(c.validate(), Err(ConfigError::InvalidXRange));
    let mut c = base_config();
    c.y_min = 80;
    assert_eq!(c.validate(), Err(ConfigError::InvalidYRange));
    let mut c = base_config();
    c.z_min = 11;
    assert_eq!(c.validate(), Err(ConfigError::InvalidZRange));
}

#[test]
fn validation_rejects_bad_thread_counts() {
    let mut c = base_config();
    c.threads = 0;
    assert_eq!(c.validate(), Err(ConfigError::InvalidThreadCount));
    let mut c = base_config();
    c.threads = 1000;
    assert_eq!(c.validate(), Err(ConfigError::InvalidThreadCount));
}

#[test]
fn validation_rejects_excessive_tolerance() {
    let mut c = base_config();
    c.max_failures = Some(2);
    assert_eq!(c.validate(), Err(ConfigError::ExcessiveTolerance));
    c.max_failures = Some(1);
    assert_eq!(c.validate(), Ok(()));
}

#[test]
fn validation_rejects_offsets_that_overflow_coordinates() {
    let mut c = base_config();
    c.formation.push(RotationInfo::new(i32::MAX, 0, 0, 1, false));
    assert_eq!(c.validate(), Err(ConfigError::OffsetOutOfRange));
}

#[test]
fn worker_ranges_cover_the_configured_domain() {
    let c = base_config();
    assert_eq!(c.validate(), Ok(()));
    let ranges = c.worker_ranges();
    assert_eq!(ranges.len(), 4);
    assert_eq!(ranges[0].start_x, 0);
    assert_eq!(ranges[3].end_x, 100);
    for w in ranges.windows(2) {
        assert_eq!(w[1].start_x, w[0].end_x + 1);
    }
}

#[test]
fn built_finder_scans_its_assigned_range() {
    let c = base_config();
    let ranges = c.worker_ranges();
    let finder = build_finder(
        VanillaTextures {},
        ranges[1],
        &c.formation,
        c.enumerate_rotations,
        c.enumerate_mirror,
    );
    assert_eq!(finder.start_x, ranges[1].start_x);
    assert_eq!(finder.end_x, ranges[1].end_x);
    let matches = finder.run();
    for m in &matches {
        assert!(ranges[1].start_x <= m.x && m.x <= ranges[1].end_x);
    }
}

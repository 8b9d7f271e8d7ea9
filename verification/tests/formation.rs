use texture_scan::config::normalize_formation;
use texture_scan::placement::Placement;
use texture_scan::rotation_info::RotationInfo;

#[test]
fn side_rotation_is_normalized_at_construction() {
    for r in -9..=9 {
        let info = RotationInfo::new(1, 2, 3, r, true);
        let expected = ((r % 2) + 2) % 2;
        assert_eq!(info.rotation, expected, "side rotation {} should reduce mod 2", r);
        assert!(0 <= info.rotation && info.rotation < 2);
    }
}

#[test]
fn non_side_rotation_is_kept_unchanged() {
    for r in -9..=9 {
        let info = RotationInfo::new(1, 2, 3, r, false);
        assert_eq!(info.rotation, r);
    }
}

#[test]
fn fix_rotation_matches_construction() {
    for r in -9..=9 {
        for is_side in [false, true] {
            let mut raw = RotationInfo { x: 4, y: 5, z: 6, rotation: r, is_side };
            raw.fix_rotation();
            assert_eq!(raw, RotationInfo::new(4, 5, 6, r, is_side));
        }
    }
}

#[test]
fn fix_rotation_is_idempotent() {
    for r in -9..=9 {
        for is_side in [false, true] {
            let mut once = RotationInfo { x: 0, y: 0, z: 0, rotation: r, is_side };
            once.fix_rotation();
            let mut twice = once;
            twice.fix_rotation();
            assert_eq!(once, twice);
        }
    }
}

#[test]
fn placement_is_a_stable_partition() {
    let formation = vec![
        RotationInfo::new(0, 0, 0, 1, false),
        RotationInfo::new(1, 0, 0, 1, true),
        RotationInfo::new(2, 0, 0, 2, false),
        RotationInfo::new(3, 0, 0, 3, true),
        RotationInfo::new(4, 0, 0, 3, false),
    ];
    let p = Placement::new(&formation);
    assert_eq!(p.tops_and_bottoms, vec![formation[0], formation[2], formation[4]]);
    assert_eq!(p.sides, vec![formation[1], formation[3]]);
}

#[test]
fn placement_of_empty_formation_is_empty() {
    let p = Placement::new(&[]);
    assert!(p.tops_and_bottoms.is_empty());
    assert!(p.sides.is_empty());
}

#[test]
fn normalize_formation_fixes_only_side_blocks() {
    let mut formation = vec![
        RotationInfo { x: 0, y: 1, z: 0, rotation: 3, is_side: true },
        RotationInfo { x: 0, y: 2, z: 0, rotation: 3, is_side: false },
        RotationInfo { x: 0, y: 3, z: 0, rotation: -5, is_side: true },
    ];
    normalize_formation(&mut formation);
    assert_eq!(formation[0].rotation, 1);
    assert_eq!(formation[1].rotation, 3);
    assert_eq!(formation[2].rotation, 1);
    assert_eq!(formation[0].y, 1);
    assert_eq!(formation[2].is_side, true);
}

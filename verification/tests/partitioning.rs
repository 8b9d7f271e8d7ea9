use texture_scan::partition::{partition_ranges, ScanRange};

fn assert_exact_cover(ranges: &[ScanRange], x_min: i32, x_max: i32) {
    assert!(!ranges.is_empty());
    assert_eq!(ranges[0].start_x, x_min);
    assert_eq!(ranges[ranges.len() - 1].end_x, x_max);
    for r in ranges {
        assert!(r.start_x <= r.end_x);
        assert!(x_min <= r.start_x && r.end_x <= x_max);
    }
    for w in ranges.windows(2) {
        assert_eq!(w[1].start_x, w[0].end_x + 1, "chunks must be contiguous");
    }
    let total: i64 = ranges.iter().map(|r| r.end_x as i64 - r.start_x as i64 + 1).sum();
    assert_eq!(total, x_max as i64 - x_min as i64 + 1, "every X is covered exactly once");
}

#[test]
fn partition_covers_domain_for_representative_thread_counts() {
    for &threads in &[1, 2, 3, 7] {
        for &(x_min, x_max) in &[(0, 9), (-1000, 1000), (-7, -1), (0, 6), (5, 11)] {
            let n = x_max as i64 - x_min as i64 + 1;
            if (threads as i64) > n {
                continue;
            }
            let ranges = partition_ranges(x_min, x_max, -64, 320, -100, 100, threads);
            assert_eq!(ranges.len(), threads as usize);
            assert_exact_cover(&ranges, x_min, x_max);
        }
    }
}

#[test]
fn partition_spreads_remainder_over_first_workers() {
    // 10 values over 3 workers: sizes 4, 3, 3.
    let ranges = partition_ranges(0, 9, 0, 1, 0, 1, 3);
    let sizes: Vec<i32> = ranges.iter().map(|r| r.end_x - r.start_x + 1).collect();
    assert_eq!(sizes, vec![4, 3, 3]);
}

#[test]
fn partition_copies_the_other_axes() {
    let ranges = partition_ranges(-10, 10, -64, 320, -5, 5, 2);
    for r in &ranges {
        assert_eq!((r.y_min, r.y_max, r.z_min, r.z_max), (-64, 320, -5, 5));
    }
}

#[test]
fn partition_single_thread_takes_everything() {
    let ranges = partition_ranges(-123, 456, 0, 1, 0, 1, 1);
    assert_eq!(ranges.len(), 1);
    assert_eq!((ranges[0].start_x, ranges[0].end_x), (-123, 456));
}

//! The scan partitioner: splits the X domain into contiguous per-worker
//! sub-ranges that together cover it exactly once.

use vstd::prelude::*;
use vstd::arithmetic::div_mod::lemma_fundamental_div_mod;
use vstd::arithmetic::div_mod::lemma_div_is_ordered;
use vstd::arithmetic::div_mod::lemma_div_by_self;
use vstd::arithmetic::mul::lemma_mul_nonnegative;

verus! {

/// The sub-volume assigned to one worker. `start_x..=end_x` is the worker's
/// slice of the X domain; the other axes are scanned in full by every worker.
#[derive(Debug, PartialEq, Eq, Structural, Clone, Copy)]
pub struct ScanRange {
    pub start_x: i32,
    pub end_x: i32,
    pub y_min: i32,
    pub y_max: i32,
    pub z_min: i32,
    pub z_max: i32,
}

/// Whether an X coordinate falls inside a worker's slice.
pub open spec fn covers(r: ScanRange, x: int) -> bool {
    r.start_x <= x <= r.end_x
}

/// Whether some range in the sequence covers the X coordinate.
pub open spec fn covered_by(ranges: Seq<ScanRange>, x: int) -> bool {
    exists|i: int| 0 <= i < ranges.len() && covers(#[trigger] ranges[i], x)
}

/// Where chunk `i` of a domain of `n` X values split across `threads` workers
/// begins: the first `n % threads` chunks take one extra value each, so the
/// chunks cover the domain exactly.
pub open spec fn chunk_start(x_min: int, n: int, threads: int, i: int) -> int {
    x_min + i * (n / threads) + (if i < n % threads {
        i
    } else {
        n % threads
    })
}

proof fn lemma_chunk_start_next(x_min: int, n: int, threads: int, i: int)
    requires
        1 <= threads <= n,
        0 <= i < threads,
    ensures
        chunk_start(x_min, n, threads, i + 1) == chunk_start(x_min, n, threads, i) + n / threads
            + (if i < n % threads {
            1int
        } else {
            0int
        }),
{
    let q = n / threads;
    assert((i + 1) * q == i * q + q) by (nonlinear_arith);
}

proof fn lemma_quotient_at_least_one(n: int, threads: int)
    requires
        1 <= threads <= n,
    ensures
        n / threads >= 1,
{
    lemma_div_is_ordered(threads, n, threads);
    lemma_div_by_self(threads);
}

/// Each chunk start leaves at least one X value for every later chunk, and
/// no chunk starts before the domain.
proof fn lemma_chunk_start_bounds(x_min: int, n: int, threads: int, i: int)
    requires
        1 <= threads <= n,
        0 <= i <= threads,
    ensures
        x_min <= chunk_start(x_min, n, threads, i),
        chunk_start(x_min, n, threads, i) <= x_min + n - (threads - i),
    decreases threads - i,
{
    let q = n / threads;
    let r = n % threads;
    lemma_mul_nonnegative(i, q);
    lemma_quotient_at_least_one(n, threads);
    if i == threads {
        lemma_fundamental_div_mod(n, threads);
        assert(threads * q == i * q) by (nonlinear_arith)
            requires
                i == threads,
        ;
    } else {
        lemma_chunk_start_bounds(x_min, n, threads, i + 1);
        lemma_chunk_start_next(x_min, n, threads, i);
    }
}

/// Divide the inclusive X domain `[x_min, x_max]` into `threads` contiguous
/// chunks. The first `n % threads` workers take one X value more than the
/// rest, so the chunks cover the domain exactly once: each worker's slice is
/// nonempty, the first begins at `x_min`, the last ends at `x_max`, and each
/// slice begins right after its predecessor ends.
pub fn partition_ranges(
    x_min: i32,
    x_max: i32,
    y_min: i32,
    y_max: i32,
    z_min: i32,
    z_max: i32,
    threads: i32,
) -> (ranges: Vec<ScanRange>)
    requires
        x_min <= x_max,
        1 <= threads,
        threads as int <= x_max - x_min + 1,
    ensures
        ranges@.len() == threads as int,
        forall|i: int|
            0 <= i < threads as int ==> {
                let n = x_max - x_min + 1;
                &&& (#[trigger] ranges@[i]).start_x == chunk_start(x_min as int, n, threads as int, i)
                &&& ranges@[i].end_x == chunk_start(x_min as int, n, threads as int, i + 1) - 1
                &&& ranges@[i].start_x <= ranges@[i].end_x
                &&& x_min <= ranges@[i].start_x
                &&& ranges@[i].end_x <= x_max
                &&& ranges@[i].y_min == y_min
                &&& ranges@[i].y_max == y_max
                &&& ranges@[i].z_min == z_min
                &&& ranges@[i].z_max == z_max
            },
        ranges@[0].start_x == x_min,
        ranges@[threads as int - 1].end_x == x_max,
        forall|i: int|
            0 <= i < threads as int - 1 ==> ranges@[i + 1].start_x == (#[trigger] ranges@[i]).end_x
                + 1,
{
    let ghost gn = (x_max - x_min + 1) as int;
    let ghost gt = threads as int;
    let n: i64 = x_max as i64 - x_min as i64 + 1;
    let t: i64 = threads as i64;
    let q: i64 = n / t;
    let r: i64 = n % t;
    let mut ranges: Vec<ScanRange> = Vec::new();
    let mut cur: i64 = x_min as i64;
    let mut i: i32 = 0;
    proof {
        lemma_quotient_at_least_one(gn, gt);
    }
    while i < threads
        invariant
            0 <= i <= threads,
            1 <= gt <= gn,
            gn == x_max - x_min + 1,
            gt == threads as int,
            q == gn / gt,
            r == gn % gt,
            q >= 1,
            x_min <= x_max,
            cur == chunk_start(x_min as int, gn, gt, i as int),
            ranges@.len() == i as int,
            forall|j: int|
                0 <= j < i as int ==> {
                    &&& (#[trigger] ranges@[j]).start_x == chunk_start(x_min as int, gn, gt, j)
                    &&& ranges@[j].end_x == chunk_start(x_min as int, gn, gt, j + 1) - 1
                    &&& ranges@[j].y_min == y_min
                    &&& ranges@[j].y_max == y_max
                    &&& ranges@[j].z_min == z_min
                    &&& ranges@[j].z_max == z_max
                },
        decreases threads - i,
    {
        proof {
            lemma_chunk_start_bounds(x_min as int, gn, gt, i as int);
            lemma_chunk_start_bounds(x_min as int, gn, gt, i as int + 1);
            lemma_chunk_start_next(x_min as int, gn, gt, i as int);
        }
        let extra: i64 = if (i as i64) < r {
            1
        } else {
            0
        };
        let end: i64 = cur + q + extra - 1;
        ranges.push(
            ScanRange {
                start_x: cur as i32,
                end_x: end as i32,
                y_min,
                y_max,
                z_min,
                z_max,
            },
        );
        cur = end + 1;
        i = i + 1;
    }
    proof {
        assert forall|j: int| 0 <= j < gt implies {
            &&& x_min <= (#[trigger] ranges@[j]).start_x
            &&& ranges@[j].start_x <= ranges@[j].end_x
            &&& ranges@[j].end_x <= x_max
        } by {
            lemma_chunk_start_bounds(x_min as int, gn, gt, j);
            lemma_chunk_start_bounds(x_min as int, gn, gt, j + 1);
            lemma_chunk_start_next(x_min as int, gn, gt, j);
        }
        lemma_chunk_start_bounds(x_min as int, gn, gt, gt);
        lemma_chunk_start_bounds(x_min as int, gn, gt, 0);
        lemma_fundamental_div_mod(gn, gt);
    }
    ranges
}

/// Ranges laid out back to back never put one X coordinate in two of them.
proof fn lemma_ranges_ordered(ranges: Seq<ScanRange>, i: int, j: int)
    requires
        forall|k: int|
            0 <= k < ranges.len() ==> (#[trigger] ranges[k]).start_x <= ranges[k].end_x,
        forall|k: int|
            0 <= k < ranges.len() - 1 ==> ranges[k + 1].start_x == (#[trigger] ranges[k]).end_x
                + 1,
        0 <= i < j < ranges.len(),
    ensures
        ranges[i].end_x < ranges[j].start_x,
    decreases j - i,
{
    if j > i + 1 {
        lemma_ranges_ordered(ranges, i, j - 1);
    }
}

proof fn lemma_prefix_cover(ranges: Seq<ScanRange>, k: int)
    requires
        forall|m: int|
            0 <= m < ranges.len() ==> (#[trigger] ranges[m]).start_x <= ranges[m].end_x,
        forall|m: int|
            0 <= m < ranges.len() - 1 ==> ranges[m + 1].start_x == (#[trigger] ranges[m]).end_x
                + 1,
        0 <= k < ranges.len(),
    ensures
        forall|x: int|
            ranges[0].start_x <= x <= ranges[k].end_x ==> #[trigger] covered_by(ranges, x),
    decreases k,
{
    if k > 0 {
        lemma_prefix_cover(ranges, k - 1);
        assert forall|x: int|
            ranges[0].start_x <= x <= ranges[k].end_x implies #[trigger] covered_by(
            ranges,
            x,
        ) by {
            if x > ranges[k - 1].end_x {
                assert(covers(ranges[k], x));
            }
        }
    }
}

/// Partition coverage: worker ranges laid out back to back over
/// `[x_min, x_max]` cover the whole domain, and no X coordinate belongs to
/// two of them.
pub proof fn lemma_partition_exact_cover(ranges: Seq<ScanRange>, x_min: int, x_max: int)
    requires
        ranges.len() >= 1,
        ranges[0].start_x == x_min,
        ranges[ranges.len() - 1].end_x == x_max,
        forall|i: int|
            0 <= i < ranges.len() ==> (#[trigger] ranges[i]).start_x <= ranges[i].end_x,
        forall|i: int|
            0 <= i < ranges.len() - 1 ==> ranges[i + 1].start_x == (#[trigger] ranges[i]).end_x
                + 1,
    ensures
        forall|x: int| x_min <= x <= x_max ==> #[trigger] covered_by(ranges, x),
        forall|i: int, j: int, x: int|
            0 <= i < j < ranges.len() ==> !(#[trigger] covers(ranges[i], x)
                && #[trigger] covers(ranges[j], x)),
{
    lemma_prefix_cover(ranges, ranges.len() - 1);
    assert forall|i: int, j: int, x: int|
        0 <= i < j < ranges.len() implies !(#[trigger] covers(ranges[i], x) && #[trigger] covers(
        ranges[j],
        x,
    )) by {
        lemma_ranges_ordered(ranges, i, j);
    }
}

} // verus!

//! Spatial partitioning: turn an unordered particle array into a
//! per-cell-contiguous ordering without moving the particles.
//!
//! Three passes run in order each frame: count particles per cell, compute
//! an exclusive prefix sum over the histogram (two-level, in blocks of 256
//! cells), and scatter every particle id into its cell's contiguous range.

use vstd::prelude::*;

verus! {

/// Cells per block of the two-level prefix sum.
pub const PREFIX_BLOCK: usize = 256;

/// How many of the first `k` particles have cell index `c`.
pub open spec fn count_upto(cells: Seq<u32>, c: u32, k: int) -> int
    decreases k,
{
    if k <= 0 {
        0
    } else {
        count_upto(cells, c, k - 1) + if cells[k - 1] == c {
            1int
        } else {
            0int
        }
    }
}

/// How many particles have cell index `c` in total.
pub open spec fn count_of(cells: Seq<u32>, c: u32) -> int {
    count_upto(cells, c, cells.len() as int)
}

/// How many of the first `k` particles have a cell index below `c`.
pub open spec fn count_below_upto(cells: Seq<u32>, c: int, k: int) -> int
    decreases k,
{
    if k <= 0 {
        0
    } else {
        count_below_upto(cells, c, k - 1) + if cells[k - 1] < c {
            1int
        } else {
            0int
        }
    }
}

/// The exclusive prefix-sum offset of cell `c`: how many particles fall in
/// cells before it.
pub open spec fn offset_of(cells: Seq<u32>, c: int) -> int {
    count_below_upto(cells, c, cells.len() as int)
}

/// The sum of the first `k` histogram entries.
pub open spec fn sum_counts(hist: Seq<u32>, k: int) -> int
    decreases k,
{
    if k <= 0 {
        0
    } else {
        sum_counts(hist, k - 1) + hist[k - 1]
    }
}

/// The sum of the histogram entries in `[a, b)`.
pub open spec fn sum_range(hist: Seq<u32>, a: int, b: int) -> int
    decreases b - a,
{
    if b <= a {
        0
    } else {
        sum_range(hist, a, b - 1) + hist[b - 1]
    }
}

pub proof fn lemma_count_upto_bounds(cells: Seq<u32>, c: u32, k: int)
    requires
        0 <= k <= cells.len(),
    ensures
        0 <= count_upto(cells, c, k) <= k,
    decreases k,
{
    if k > 0 {
        lemma_count_upto_bounds(cells, c, k - 1);
    }
}

/// Counting a prefix never exceeds counting a longer prefix.
pub proof fn lemma_count_upto_mono(cells: Seq<u32>, c: u32, i: int, j: int)
    requires
        0 <= i <= j <= cells.len(),
    ensures
        count_upto(cells, c, i) <= count_upto(cells, c, j),
    decreases j,
{
    if i < j {
        lemma_count_upto_mono(cells, c, i, j - 1);
    }
}

pub proof fn lemma_count_below_upto_bounds(cells: Seq<u32>, c: int, k: int)
    requires
        0 <= k <= cells.len(),
    ensures
        0 <= count_below_upto(cells, c, k) <= k,
    decreases k,
{
    if k > 0 {
        lemma_count_below_upto_bounds(cells, c, k - 1);
    }
}

/// Splitting the cells below `c + 1` into those below `c` and those equal
/// to `c`.
pub proof fn lemma_count_below_step(cells: Seq<u32>, c: u32, k: int)
    requires
        0 <= k <= cells.len(),
    ensures
        count_below_upto(cells, c as int + 1, k) == count_below_upto(cells, c as int, k)
            + count_upto(cells, c, k),
    decreases k,
{
    if k > 0 {
        lemma_count_below_step(cells, c, k - 1);
    }
}

/// The below-`c` count grows with `c`.
pub proof fn lemma_count_below_mono(cells: Seq<u32>, c1: int, c2: int, k: int)
    requires
        0 <= k <= cells.len(),
        c1 <= c2,
    ensures
        count_below_upto(cells, c1, k) <= count_below_upto(cells, c2, k),
    decreases k,
{
    if k > 0 {
        lemma_count_below_mono(cells, c1, c2, k - 1);
    }
}

/// Every particle lies below `n_cells`, so they are all counted.
pub proof fn lemma_count_below_all(cells: Seq<u32>, n_cells: int, k: int)
    requires
        0 <= k <= cells.len(),
        forall|i: int| 0 <= i < cells.len() ==> #[trigger] cells[i] < n_cells,
    ensures
        count_below_upto(cells, n_cells, k) == k,
    decreases k,
{
    if k > 0 {
        lemma_count_below_all(cells, n_cells, k - 1);
    }
}

/// A prefix sum splits at any point into the shorter prefix plus the range.
pub proof fn lemma_sum_split(hist: Seq<u32>, k: int, j: int)
    requires
        0 <= k <= j <= hist.len(),
    ensures
        sum_counts(hist, j) == sum_counts(hist, k) + sum_range(hist, k, j),
    decreases j - k,
{
    if k < j {
        lemma_sum_split(hist, k, j - 1);
    }
}

pub proof fn lemma_sum_range_bounds(hist: Seq<u32>, a: int, b: int)
    requires
        0 <= a <= b <= hist.len(),
    ensures
        sum_range(hist, a, b) >= 0,
    decreases b - a,
{
    if a < b {
        lemma_sum_range_bounds(hist, a, b - 1);
    }
}

/// The prefix-sum offsets of a histogram are non-decreasing, and the offset
/// of the last cell plus its count is the total over the whole histogram:
/// exactly the shape the scatter pass relies on, for any histogram.
pub proof fn lemma_prefix_sum_properties(hist: Seq<u32>, i: int, j: int)
    requires
        0 <= i <= j <= hist.len(),
    ensures
        sum_counts(hist, i) <= sum_counts(hist, j),
        hist.len() >= 1 ==> sum_counts(hist, hist.len() as int) == sum_counts(
            hist,
            hist.len() - 1,
        ) + hist[hist.len() - 1],
{
    lemma_sum_split(hist, i, j);
    lemma_sum_range_bounds(hist, i, j);
}

/// The histogram of per-cell counts sums, prefix by prefix, to the count of
/// particles in cells below the boundary.
pub proof fn lemma_hist_prefix_is_offset(cells: Seq<u32>, hist: Seq<u32>, c: int)
    requires
        0 <= c <= hist.len(),
        hist.len() <= 0xFFFF_FFFF,
        forall|c2: int| 0 <= c2 < hist.len() ==> #[trigger] hist[c2] == count_of(
            cells,
            c2 as u32,
        ),
    ensures
        sum_counts(hist, c) == count_below_upto(cells, c, cells.len() as int),
    decreases c,
{
    if c == 0 {
        lemma_count_below_zero(cells, cells.len() as int);
    } else {
        lemma_hist_prefix_is_offset(cells, hist, c - 1);
        lemma_count_below_step(cells, (c - 1) as u32, cells.len() as int);
        assert(hist[c - 1] == count_of(cells, (c - 1) as u32));
        assert((c - 1) as u32 as int == c - 1);
    }
}

/// Block `b` of the prefix sum starts inside (or at the end of) the
/// histogram.
proof fn lemma_block_start_le(n: int, b: int)
    requires
        0 <= b <= n / PREFIX_BLOCK as int,
        n >= 0,
    ensures
        b * PREFIX_BLOCK <= n,
{
    vstd::arithmetic::div_mod::lemma_fundamental_div_mod(n, PREFIX_BLOCK as int);
    assert(b * PREFIX_BLOCK <= (n / PREFIX_BLOCK as int) * PREFIX_BLOCK) by (nonlinear_arith)
        requires b <= n / PREFIX_BLOCK as int;
    assert((n / PREFIX_BLOCK as int) * PREFIX_BLOCK == PREFIX_BLOCK as int * (n
        / PREFIX_BLOCK as int)) by (nonlinear_arith);
    assert(n % PREFIX_BLOCK as int >= 0);
}

proof fn lemma_count_below_zero(cells: Seq<u32>, k: int)
    requires
        0 <= k <= cells.len(),
    ensures
        count_below_upto(cells, 0, k) == 0,
    decreases k,
{
    if k > 0 {
        lemma_count_below_zero(cells, k - 1);
    }
}

/// For any particle set whose cells all lie below `n_cells`, the offset of
/// the last cell plus that cell's count is the total particle count.
pub proof fn lemma_offsets_cover_particles(cells: Seq<u32>, n_cells: int)
    requires
        n_cells >= 1,
        forall|i: int| 0 <= i < cells.len() ==> #[trigger] cells[i] < n_cells,
        n_cells <= 0xFFFF_FFFF,
    ensures
        offset_of(cells, n_cells - 1) + count_of(cells, (n_cells - 1) as u32) == cells.len(),
{
    lemma_count_below_step(cells, (n_cells - 1) as u32, cells.len() as int);
    lemma_count_below_all(cells, n_cells, cells.len() as int);
}

/// Count pass: the per-cell histogram of the particles' cell indices.
pub fn count_cells(cells: &Vec<u32>, n_cells: u32) -> (hist: Vec<u32>)
    requires
        n_cells >= 1,
        cells@.len() <= 0x4000_0000,
        forall|i: int| 0 <= i < cells@.len() ==> #[trigger] cells@[i] < n_cells,
    ensures
        hist@.len() == n_cells,
        forall|c: int| 0 <= c < n_cells ==> #[trigger] hist@[c] == count_of(cells@, c as u32),
{
    let mut hist: Vec<u32> = Vec::new();
    while hist.len() < n_cells as usize
        invariant
            hist@.len() <= n_cells,
            forall|c: int| 0 <= c < hist@.len() ==> #[trigger] hist@[c] == 0,
        decreases n_cells - hist@.len(),
    {
        hist.push(0);
    }
    let mut i: usize = 0;
    while i < cells.len()
        invariant
            i <= cells@.len(),
            cells@.len() <= 0x4000_0000,
            hist@.len() == n_cells,
            forall|k: int| 0 <= k < cells@.len() ==> #[trigger] cells@[k] < n_cells,
            forall|c: int| 0 <= c < n_cells ==> #[trigger] hist@[c] == count_upto(
                cells@,
                c as u32,
                i as int,
            ),
        decreases cells@.len() - i,
    {
        let c = cells[i];
        proof {
            lemma_count_upto_bounds(cells@, c, i as int);
        }
        let cur = hist[c as usize];
        hist.set(c as usize, cur + 1);
        i = i + 1;
    }
    hist
}

/// Prefix-sum pass: the exclusive prefix sum of the histogram, computed in
/// independent blocks of `PREFIX_BLOCK` cells whose totals are combined by a
/// second, block-level prefix sum. Entry `c` is the sum of the counts of all
/// cells before `c`; one extra entry at the end carries the grand total.
pub fn prefix_sum_offsets(hist: &Vec<u32>) -> (offsets: Vec<u32>)
    requires
        hist@.len() <= 0x1000_0000,
        sum_counts(hist@, hist@.len() as int) <= 0x4000_0000,
    ensures
        offsets@.len() == hist@.len() + 1,
        forall|c: int| 0 <= c <= hist@.len() ==> #[trigger] offsets@[c] == sum_counts(hist@, c),
{
    let n = hist.len();
    let thread_blocks = (n + PREFIX_BLOCK - 1) / PREFIX_BLOCK;

    // Per-block totals.
    let mut block_tot: Vec<u32> = Vec::new();
    let mut b: usize = 0;
    while b < thread_blocks
        invariant
            thread_blocks == (n + PREFIX_BLOCK - 1) as int / PREFIX_BLOCK as int,
            n == hist@.len(),
            n <= 0x1000_0000,
            sum_counts(hist@, n as int) <= 0x4000_0000,
            b <= thread_blocks,
            block_tot@.len() == b,
            forall|b2: int| 0 <= b2 < b ==> #[trigger] block_tot@[b2] == sum_range(
                hist@,
                b2 * PREFIX_BLOCK,
                block_end_spec(n as int, b2),
            ),
        decreases thread_blocks - b,
    {
        let start = b * PREFIX_BLOCK;
        let stop = if start + PREFIX_BLOCK < n {
            start + PREFIX_BLOCK
        } else {
            n
        };
        let ghost bstart = start as int;
        let mut t: u32 = 0;
        let mut i: usize = start;
        proof {
            lemma_ceil_blocks_cover(n as int);
            vstd::arithmetic::div_mod::lemma_div_is_ordered(n as int - 1, n as int, PREFIX_BLOCK as int);
            lemma_block_start_le(n as int, b as int);
            lemma_block_range_in_total(hist@, bstart, bstart);
            lemma_prefix_sum_properties(hist@, 0, n as int);
        }
        while i < stop
            invariant
                n == hist@.len(),
                sum_counts(hist@, n as int) <= 0x4000_0000,
                bstart <= i <= stop <= n,
                bstart == start,
                t == sum_range(hist@, bstart, i as int),
                0 <= t <= sum_counts(hist@, n as int),
            decreases stop - i,
        {
            proof {
                lemma_block_range_in_total(hist@, bstart, i + 1);
                lemma_prefix_sum_properties(hist@, 0, bstart);
            }
            t = t + hist[i];
            i = i + 1;
        }
        proof {
            if start >= n {
                assert(stop == n);
                assert(t == sum_range(hist@, bstart, block_end_spec(n as int, b as int)));
            }
        }
        block_tot.push(t);
        b = b + 1;
    }

    // Prefix sum over the block totals, then each block's local prefix sums
    // shifted by its block offset.
    let mut offsets: Vec<u32> = Vec::new();
    let mut acc: u32 = 0;
    let mut b: usize = 0;
    proof {
        lemma_prefix_sum_properties(hist@, 0, n as int);
    }
    while b < thread_blocks
        invariant
            thread_blocks == (n + PREFIX_BLOCK - 1) as int / PREFIX_BLOCK as int,
            n == hist@.len(),
            n <= 0x1000_0000,
            sum_counts(hist@, n as int) <= 0x4000_0000,
            b <= thread_blocks,
            block_tot@.len() == thread_blocks,
            forall|b2: int| 0 <= b2 < thread_blocks ==> #[trigger] block_tot@[b2] == sum_range(
                hist@,
                b2 * PREFIX_BLOCK,
                block_end_spec(n as int, b2),
            ),
            offsets@.len() == clip_spec(b * PREFIX_BLOCK, n as int),
            forall|c: int| 0 <= c < offsets@.len() ==> #[trigger] offsets@[c] == sum_counts(
                hist@,
                c,
            ),
            acc == sum_counts(hist@, clip_spec(b * PREFIX_BLOCK, n as int)),
            0 <= acc <= sum_counts(hist@, n as int),
        decreases thread_blocks - b,
    {
        let start = b * PREFIX_BLOCK;
        let stop = if start + PREFIX_BLOCK < n {
            start + PREFIX_BLOCK
        } else {
            n
        };
        let mut local: u32 = acc;
        let mut i: usize = start;
        proof {
            lemma_ceil_blocks_cover(n as int);
            vstd::arithmetic::div_mod::lemma_div_is_ordered(n as int - 1, n as int, PREFIX_BLOCK as int);
            lemma_block_start_le(n as int, b as int);
            lemma_sum_split_clip(hist@, start as int, n as int);
        }
        if start <= n {
            while i < stop
                invariant
                    n == hist@.len(),
                    sum_counts(hist@, n as int) <= 0x4000_0000,
                    start <= i <= stop <= n,
                    offsets@.len() == i,
                    forall|c: int| 0 <= c < offsets@.len() ==> #[trigger] offsets@[c]
                        == sum_counts(hist@, c),
                    local == sum_counts(hist@, i as int),
                    0 <= local <= sum_counts(hist@, n as int),
                decreases stop - i,
            {
                offsets.push(local);
                proof {
                    lemma_prefix_sum_properties(hist@, i + 1, n as int);
                    lemma_prefix_sum_properties(hist@, 0, i + 1);
                }
                local = local + hist[i];
                i = i + 1;
            }
        }
        proof {
            lemma_sum_split_block(hist@, b as int, n as int);
            lemma_prefix_sum_properties(hist@, block_end_spec(n as int, b as int), n as int);
            lemma_prefix_sum_properties(hist@, 0, block_end_spec(n as int, b as int));
        }
        acc = acc + block_tot[b];
        b = b + 1;
    }
    proof {
        lemma_ceil_blocks_cover(n as int);
        assert(clip_spec(thread_blocks as int * PREFIX_BLOCK, n as int) == n as int);
    }
    offsets.push(acc);
    offsets
}

/// `ceil(n / PREFIX_BLOCK)` blocks cover all `n` cells, and each block
/// starts inside the histogram.
proof fn lemma_ceil_blocks_cover(n: int)
    requires
        0 <= n,
    ensures
        ((n + PREFIX_BLOCK - 1) / PREFIX_BLOCK as int) * PREFIX_BLOCK >= n,
        n >= 1 ==> (n + PREFIX_BLOCK - 1) / PREFIX_BLOCK as int - 1 <= (n - 1)
            / PREFIX_BLOCK as int,
{
    let bk = PREFIX_BLOCK as int;
    let q = (n + bk - 1) / bk;
    vstd::arithmetic::div_mod::lemma_fundamental_div_mod(n + bk - 1, bk);
    vstd::arithmetic::div_mod::lemma_mod_bound(n + bk - 1, bk);
    assert(q * bk == bk * q) by (nonlinear_arith);
    assert(q * bk >= n);
    if n >= 1 {
        let q2 = (n - 1) / bk;
        vstd::arithmetic::div_mod::lemma_fundamental_div_mod(n - 1, bk);
        vstd::arithmetic::div_mod::lemma_mod_bound(n - 1, bk);
        assert((q - 1) <= q2) by {
            assert(n + bk - 1 == bk * q + (n + bk - 1) % bk);
            assert(n - 1 == bk * q2 + (n - 1) % bk);
            assert(q - 1 <= q2) by (nonlinear_arith)
                requires
                    n + bk - 1 == bk * q + (n + bk - 1) % bk,
                    n - 1 == bk * q2 + (n - 1) % bk,
                    0 <= (n + bk - 1) % bk < bk,
                    0 <= (n - 1) % bk < bk,
                    bk == 256,
            ;
        }
    }
}

/// End of block `b`: one block further, clipped to the histogram length.
pub open spec fn block_end_spec(n: int, b: int) -> int {
    clip_spec(b * PREFIX_BLOCK + PREFIX_BLOCK, n)
}

pub open spec fn clip_spec(v: int, n: int) -> int {
    if v < n {
        v
    } else {
        n
    }
}

/// Any in-range block sum is bounded by the grand total.
proof fn lemma_block_range_in_total(hist: Seq<u32>, a: int, b: int)
    requires
        0 <= a,
        a <= b || b <= a,
    ensures
        a <= b <= hist.len() ==> 0 <= sum_range(hist, a, b) && sum_counts(hist, a) + sum_range(
            hist,
            a,
            b,
        ) <= sum_counts(hist, hist.len() as int),
{
    if a <= b <= hist.len() {
        lemma_sum_range_bounds(hist, a, b);
        lemma_sum_split(hist, a, b);
        lemma_prefix_sum_properties(hist, b, hist.len() as int);
        lemma_prefix_sum_properties(hist, 0, a);
    }
}

/// `sum_counts` up to a clipped boundary splits into the prefix and the
/// clipped remainder.
proof fn lemma_sum_split_clip(hist: Seq<u32>, k: int, n: int)
    requires
        0 <= k,
        n == hist.len(),
    ensures
        sum_counts(hist, clip_spec(k, n)) + sum_range(hist, clip_spec(k, n), n) == sum_counts(
            hist,
            n,
        ),
{
    lemma_sum_split(hist, clip_spec(k, n), n);
}

/// Adding block `b`'s total advances the running offset to the next block
/// boundary.
proof fn lemma_sum_split_block(hist: Seq<u32>, b: int, n: int)
    requires
        0 <= b,
        n == hist.len(),
    ensures
        sum_counts(hist, clip_spec(b * PREFIX_BLOCK, n)) + sum_range(
            hist,
            clip_spec(b * PREFIX_BLOCK, n),
            block_end_spec(n, b),
        ) == sum_counts(hist, block_end_spec(n, b)),
        clip_spec((b + 1) * PREFIX_BLOCK, n) == block_end_spec(n, b),
        b * PREFIX_BLOCK >= n ==> sum_range(
            hist,
            b * PREFIX_BLOCK,
            block_end_spec(n, b),
        ) == sum_range(hist, clip_spec(b * PREFIX_BLOCK, n), block_end_spec(n, b)),
{
    let s = clip_spec(b * PREFIX_BLOCK, n);
    let e = block_end_spec(n, b);
    assert(b * PREFIX_BLOCK >= 0) by (nonlinear_arith)
        requires b >= 0;
    assert((b + 1) * PREFIX_BLOCK == b * PREFIX_BLOCK + PREFIX_BLOCK);
    assert(s <= e <= n);
    lemma_sum_split(hist, s, e);
    if b * PREFIX_BLOCK >= n {
        assert(s == n && e == n);
        assert(sum_range(hist, b * PREFIX_BLOCK, e) == 0) by {
            assert(e <= b * PREFIX_BLOCK);
        }
    }
}

/// Scatter pass: write every particle id into its cell's contiguous range
/// of the sorted-index array, advancing a per-cell write cursor that starts
/// at the cell's prefix-sum offset.
///
/// The contract is the round trip of the whole partitioner: for every cell
/// `c`, the slots `sorted[offset_of(c) .. offset_of(c+1)]` hold exactly the
/// ids of the particles whose cell index is `c`, each id exactly once.
pub fn sort_particles(cells: &Vec<u32>, offsets: &Vec<u32>, n_cells: u32) -> (sorted: Vec<u32>)
    requires
        n_cells >= 1,
        cells@.len() <= 0x4000_0000,
        forall|i: int| 0 <= i < cells@.len() ==> #[trigger] cells@[i] < n_cells,
        offsets@.len() == n_cells as int + 1,
        forall|c: int| 0 <= c <= n_cells ==> #[trigger] offsets@[c] == offset_of(cells@, c),
    ensures
        sorted@.len() == cells@.len(),
        forall|k: int| 0 <= k < sorted@.len() ==> #[trigger] sorted@[k] < cells@.len(),
        forall|c: int, k: int|
            #![trigger offset_of(cells@, c), sorted@[k]]
            0 <= c < n_cells && offset_of(cells@, c) <= k < offset_of(cells@, c + 1) ==> 0
                <= sorted@[k] < cells@.len() && cells@[sorted@[k] as int] == c,
        forall|i: int|
            0 <= i < cells@.len() ==> exists|k: int|
                offset_of(cells@, #[trigger] cells@[i] as int) <= k < offset_of(
                    cells@,
                    cells@[i] as int + 1,
                ) && #[trigger] sorted@[k] == i,
        forall|k1: int, k2: int|
            0 <= k1 < k2 < sorted@.len() ==> #[trigger] sorted@[k1] != #[trigger] sorted@[k2],
{
    let n = cells.len();
    let ghost cs = cells@;

    // The per-cell write cursors start at the prefix-sum offsets.
    let mut cursors: Vec<u32> = Vec::new();
    let mut c: usize = 0;
    while c < n_cells as usize
        invariant
            cursors@.len() == c,
            c <= n_cells,
            offsets@.len() == n_cells as int + 1,
            forall|c2: int| 0 <= c2 <= n_cells ==> #[trigger] offsets@[c2] == offset_of(cs, c2),
            forall|c2: int| 0 <= c2 < c ==> #[trigger] cursors@[c2] == offset_of(cs, c2),
        decreases n_cells - c,
    {
        cursors.push(offsets[c]);
        c = c + 1;
    }

    let mut sorted: Vec<u32> = Vec::new();
    while sorted.len() < n
        invariant
            sorted@.len() <= n,
        decreases n - sorted@.len(),
    {
        sorted.push(0);
    }

    proof {
        lemma_count_below_all(cs, n_cells as int, n as int);
        assert forall|c2: int| 0 <= c2 < n_cells implies #[trigger] cursors@[c2] <= offset_of(
            cs,
            c2 + 1,
        ) by {
            lemma_count_below_mono(cs, c2, c2 + 1, n as int);
        }
    }

    let mut i: usize = 0;
    while i < n
        invariant
            n == cs.len(),
            cs == cells@,
            n <= 0x4000_0000,
            i <= n,
            n_cells >= 1,
            forall|i2: int| 0 <= i2 < n ==> #[trigger] cs[i2] < n_cells,
            offset_of(cs, n_cells as int) == n,
            sorted@.len() == n,
            cursors@.len() == n_cells,
            forall|c2: int|
                0 <= c2 < n_cells ==> #[trigger] cursors@[c2] == offset_of(cs, c2) + count_upto(
                    cs,
                    c2 as u32,
                    i as int,
                ),
            forall|c2: int| 0 <= c2 < n_cells ==> #[trigger] cursors@[c2] <= offset_of(
                cs,
                c2 + 1,
            ),
            forall|c2: int, k: int|
                #![trigger cursors@[c2], sorted@[k]]
                0 <= c2 < n_cells && offset_of(cs, c2) <= k < cursors@[c2] ==> 0 <= sorted@[k] < i
                    && cs[sorted@[k] as int] == c2,
            forall|c2: int, k1: int, k2: int|
                #![trigger cursors@[c2], sorted@[k1], sorted@[k2]]
                0 <= c2 < n_cells && offset_of(cs, c2) <= k1 < k2 < cursors@[c2] ==> sorted@[k1]
                    < sorted@[k2],
            forall|i2: int|
                0 <= i2 < i ==> exists|k: int|
                    offset_of(cs, #[trigger] cs[i2] as int) <= k < cursors@[cs[i2] as int]
                        && #[trigger] sorted@[k] == i2,
        decreases n - i,
    {
        let c = cells[i];
        proof {
            lemma_count_upto_bounds(cs, c, i as int);
            lemma_count_upto_mono(cs, c, i as int + 1, n as int);
            lemma_count_below_step(cs, c, n as int);
            lemma_count_below_upto_bounds(cs, c as int, n as int);
            lemma_count_below_mono(cs, c as int + 1, n_cells as int, n as int);
            assert(count_upto(cs, c, i as int + 1) == count_upto(cs, c, i as int) + 1);
            assert(cursors@[c as int] < offset_of(cs, c as int + 1));
            assert(cursors@[c as int] < n);
        }
        let kw = cursors[c as usize];
        let ghost old_sorted = sorted@;
        let ghost old_cursors = cursors@;
        sorted.set(kw as usize, i as u32);
        cursors.set(c as usize, kw + 1);
        proof {
            let ci = c as int;
            let kwi = kw as int;
            assert(sorted@ == old_sorted.update(kwi, i as u32));
            assert(cursors@ == old_cursors.update(ci, (kw + 1) as u32));
            // Ranges of distinct cells stay disjoint.
            assert forall|c2: int| 0 <= c2 < n_cells && c2 != ci implies #[trigger] offset_of(
                cs,
                c2,
            ) > kwi || offset_of(cs, c2 + 1) <= kwi by {
                if c2 < ci {
                    lemma_count_below_mono(cs, c2 + 1, ci, n as int);
                } else {
                    lemma_count_below_mono(cs, ci + 1, c2, n as int);
                }
            }
            // Cursor bookkeeping for the written cell.
            assert(cursors@[ci] == offset_of(cs, ci) + count_upto(cs, c, i as int + 1));
            // Every filled slot still holds a particle of its own cell.
            assert forall|c2: int, k: int|
                #![trigger cursors@[c2], sorted@[k]]
                0 <= c2 < n_cells && offset_of(cs, c2) <= k < cursors@[c2] implies 0 <= sorted@[k]
                < i + 1 && cs[sorted@[k] as int] == c2 by {
                lemma_count_below_mono(cs, c2 + 1, n_cells as int, n as int);
                lemma_count_below_upto_bounds(cs, c2, n as int);
                assert(0 <= k < n);
                if c2 == ci {
                    if k < kwi {
                        assert(old_sorted.update(kwi, i as u32)[k] == old_sorted[k]);
                        assert(old_sorted[k] == sorted@[k]);
                    } else {
                        assert(k == kwi);
                        assert(sorted@[k] == i as u32);
                    }
                } else {
                    assert(cursors@[c2] == old_cursors.update(ci, (kw + 1) as u32)[c2]);
                    assert(cursors@[c2] == old_cursors[c2]);
                    assert(k != kwi);
                    assert(old_sorted.update(kwi, i as u32)[k] == old_sorted[k]);
                    assert(sorted@[k] == old_sorted[k]);
                }
            }
            // Slots within one cell's range stay in ascending id order.
            assert forall|c2: int, k1: int, k2: int|
                #![trigger cursors@[c2], sorted@[k1], sorted@[k2]]
                0 <= c2 < n_cells && offset_of(cs, c2) <= k1 < k2 < cursors@[c2] implies sorted@[k1]
                < sorted@[k2] by {
                lemma_count_below_mono(cs, c2 + 1, n_cells as int, n as int);
                lemma_count_below_upto_bounds(cs, c2, n as int);
                assert(0 <= k1 < n && 0 <= k2 < n);
                if c2 == ci {
                    if k2 == kwi {
                        assert(old_sorted.update(kwi, i as u32)[k1] == old_sorted[k1]);
                        assert(sorted@[k1] == old_sorted[k1]);
                        assert(old_sorted[k1] < i);
                        assert(old_sorted.update(kwi, i as u32)[kwi] == i as u32);
                        assert(sorted@[k2] == i as u32);
                    } else {
                        assert(old_sorted.update(kwi, i as u32)[k1] == old_sorted[k1]);
                        assert(old_sorted.update(kwi, i as u32)[k2] == old_sorted[k2]);
                        assert(sorted@[k1] == old_sorted[k1]);
                        assert(sorted@[k2] == old_sorted[k2]);
                    }
                } else {
                    assert(cursors@[c2] == old_cursors.update(ci, (kw + 1) as u32)[c2]);
                    assert(cursors@[c2] == old_cursors[c2]);
                    assert(k1 != kwi && k2 != kwi);
                    assert(old_sorted.update(kwi, i as u32)[k1] == old_sorted[k1]);
                    assert(old_sorted.update(kwi, i as u32)[k2] == old_sorted[k2]);
                    assert(sorted@[k1] == old_sorted[k1]);
                    assert(sorted@[k2] == old_sorted[k2]);
                }
            }
            // Every already-scattered id keeps its slot; the new id gains one.
            assert forall|i2: int| 0 <= i2 < i + 1 implies exists|k: int|
                offset_of(cs, #[trigger] cs[i2] as int) <= k < cursors@[cs[i2] as int]
                    && #[trigger] sorted@[k] == i2 by {
                if i2 == i {
                    assert(offset_of(cs, ci) <= kwi < cursors@[ci] && sorted@[kwi] == i2);
                } else {
                    let k0 = choose|k: int|
                        offset_of(cs, cs[i2] as int) <= k < old_cursors[cs[i2] as int]
                            && #[trigger] old_sorted[k] == i2;
                    lemma_count_below_mono(cs, cs[i2] as int + 1, n_cells as int, n as int);
                    lemma_count_below_upto_bounds(cs, cs[i2] as int, n as int);
                    if cs[i2] as int == ci {
                        assert(k0 < old_cursors[ci]);
                        assert(k0 != kwi);
                        assert(old_sorted.update(kwi, i as u32)[k0] == old_sorted[k0]);
                        assert(sorted@[k0] == old_sorted[k0]);
                        assert(cursors@[ci] == old_cursors.update(ci, (kw + 1) as u32)[ci]);
                        assert(k0 < cursors@[ci]);
                    } else {
                        assert(old_cursors[cs[i2] as int] <= offset_of(cs, cs[i2] as int + 1));
                        assert(k0 != kwi);
                        assert(old_sorted.update(kwi, i as u32)[k0] == old_sorted[k0]);
                        assert(sorted@[k0] == old_sorted[k0]);
                        assert(cursors@[cs[i2] as int] == old_cursors.update(
                            ci,
                            (kw + 1) as u32,
                        )[cs[i2] as int]);
                        assert(cursors@[cs[i2] as int] == old_cursors[cs[i2] as int]);
                    }
                }
            }
        }
        i = i + 1;
    }
    proof {
        // Full cursors sit exactly at the next cell's offset.
        assert forall|c2: int| 0 <= c2 < n_cells implies #[trigger] cursors@[c2] == offset_of(
            cs,
            c2 + 1,
        ) by {
            lemma_count_below_step(cs, c2 as u32, n as int);
            assert(cursors@[c2] == offset_of(cs, c2) + count_upto(cs, c2 as u32, n as int));
            assert(c2 as u32 as int == c2);
        }
        // The filled ranges now satisfy the postcondition shape.
        assert forall|c2: int, k: int|
            #![trigger offset_of(cs, c2), sorted@[k]]
            0 <= c2 < n_cells && offset_of(cs, c2) <= k < offset_of(cs, c2 + 1) implies 0
            <= sorted@[k] < n && cs[sorted@[k] as int] == c2 by {
            lemma_count_below_mono(cs, c2 + 1, n_cells as int, n as int);
            lemma_count_below_upto_bounds(cs, c2, n as int);
            assert(cursors@[c2] == offset_of(cs, c2 + 1));
            assert(k < n);
        }
        // Every slot holds a valid particle id.
        assert forall|k: int| 0 <= k < sorted@.len() implies #[trigger] sorted@[k] < n by {
            lemma_find_cell(cs, n_cells as int, k);
            let c = choose|c: int|
                0 <= c < n_cells && #[trigger] offset_of(cs, c) <= k < offset_of(cs, c + 1);
            assert(cursors@[c] == offset_of(cs, c + 1));
        }
        // Every slot belongs to some cell's range, so distinctness is global.
        assert forall|k1: int, k2: int| 0 <= k1 < k2 < sorted@.len() implies #[trigger] sorted@[k1]
            != #[trigger] sorted@[k2] by {
            lemma_find_cell(cs, n_cells as int, k1);
            lemma_find_cell(cs, n_cells as int, k2);
            let c1 = choose|c: int|
                0 <= c < n_cells && #[trigger] offset_of(cs, c) <= k1 < offset_of(cs, c + 1);
            let c2 = choose|c: int|
                0 <= c < n_cells && #[trigger] offset_of(cs, c) <= k2 < offset_of(cs, c + 1);
            assert(cursors@[c1] == offset_of(cs, c1 + 1));
            assert(cursors@[c2] == offset_of(cs, c2 + 1));
            if c1 == c2 {
                assert(sorted@[k1] < sorted@[k2]);
            } else {
                assert(cs[sorted@[k1] as int] == c1);
                assert(cs[sorted@[k2] as int] == c2);
            }
        }
    }
    sorted
}

/// Every slot below the total lies in the offset range of exactly one cell.
proof fn lemma_find_cell(cells: Seq<u32>, c_hi: int, k: int)
    requires
        1 <= c_hi,
        0 <= k < offset_of(cells, c_hi),
    ensures
        exists|c: int| 0 <= c < c_hi && #[trigger] offset_of(cells, c) <= k < offset_of(cells, c + 1),
    decreases c_hi,
{
    lemma_count_below_zero_pub(cells);
    if k >= offset_of(cells, c_hi - 1) {
        assert(0 <= c_hi - 1 < c_hi && offset_of(cells, c_hi - 1) <= k < offset_of(
            cells,
            c_hi - 1 + 1,
        ));
    } else {
        lemma_find_cell(cells, c_hi - 1, k);
        let c = choose|c: int|
            0 <= c < c_hi - 1 && #[trigger] offset_of(cells, c) <= k < offset_of(cells, c + 1);
        assert(0 <= c < c_hi && offset_of(cells, c) <= k < offset_of(cells, c + 1));
    }
}

/// No particle lies in a cell below zero.
proof fn lemma_count_below_zero_pub(cells: Seq<u32>)
    ensures
        offset_of(cells, 0) == 0,
{
    lemma_count_below_zero(cells, cells.len() as int);
}

/// Identifier of a particle: its index in the particle store.
#[derive(Copy, Clone, Debug, PartialEq, Eq, Structural, Hash)]
pub struct ParticleId(pub u32);

impl ParticleId {
    pub fn new(id: usize) -> (r: Self)
        requires
            id <= u32::MAX,
        ensures
            r.0 == id,
    {
        Self(id as u32)
    }

    pub fn id(&self) -> (r: usize)
        ensures
            r == self.0,
    {
        self.0 as usize
    }
}

/// Identifier of a grid cell (a partition of the world box).
#[derive(Copy, Clone, Debug, PartialEq, Eq, Structural, Hash)]
pub struct PartitionId(pub u32);

impl PartitionId {
    pub fn new(id: usize) -> (r: Self)
        requires
            id <= u32::MAX,
        ensures
            r.0 == id,
    {
        Self(id as u32)
    }

    pub fn id(&self) -> (r: usize)
        ensures
            r == self.0,
    {
        self.0 as usize
    }
}

/// The per-frame spatial partitioning buffers: the histogram of the count
/// pass, the offsets of the prefix-sum pass (one extra entry holding the
/// total), and the sorted index of the scatter pass.
pub struct SpatialPartitioning {
    pub counter: Vec<u32>,
    pub cell_offsets: Vec<u32>,
    pub sorted_indices: Vec<u32>,
    pub thread_blocks: u32,
}

impl SpatialPartitioning {
    /// The relation the three buffers have to the cell indices they were
    /// computed from: correct counts, exclusive prefix offsets, and a
    /// per-cell-contiguous permutation of the particle ids.
    pub open spec fn partitions(self, cells: Seq<u32>, n_cells: int) -> bool {
        &&& self.counter@.len() == n_cells
        &&& forall|c: int| 0 <= c < n_cells ==> #[trigger] self.counter@[c] == count_of(
            cells,
            c as u32,
        )
        &&& self.cell_offsets@.len() == n_cells + 1
        &&& forall|c: int| 0 <= c <= n_cells ==> #[trigger] self.cell_offsets@[c] == offset_of(
            cells,
            c,
        )
        &&& self.sorted_indices@.len() == cells.len()
        &&& forall|k: int|
            0 <= k < self.sorted_indices@.len() ==> #[trigger] self.sorted_indices@[k]
                < cells.len()
        &&& forall|c: int, k: int|
            #![trigger offset_of(cells, c), self.sorted_indices@[k]]
            0 <= c < n_cells && offset_of(cells, c) <= k < offset_of(cells, c + 1) ==> 0
                <= self.sorted_indices@[k] < cells.len() && cells[self.sorted_indices@[k] as int]
                == c
        &&& forall|i: int|
            0 <= i < cells.len() ==> exists|k: int|
                offset_of(cells, #[trigger] cells[i] as int) <= k < offset_of(
                    cells,
                    cells[i] as int + 1,
                ) && #[trigger] self.sorted_indices@[k] == i
        &&& forall|k1: int, k2: int|
            0 <= k1 < k2 < self.sorted_indices@.len() ==> #[trigger] self.sorted_indices@[k1]
                != #[trigger] self.sorted_indices@[k2]
    }

    /// Empty buffers; every frame recomputes them in full.
    pub fn new() -> (r: Self)
        ensures
            r.counter@.len() == 0,
            r.cell_offsets@.len() == 0,
            r.sorted_indices@.len() == 0,
    {
        SpatialPartitioning {
            counter: Vec::new(),
            cell_offsets: Vec::new(),
            sorted_indices: Vec::new(),
            thread_blocks: 0,
        }
    }

    /// Run the three passes in order over the per-particle cell indices.
    #[verifier::rlimit(60)]
    pub fn run(&mut self, cells: &Vec<u32>, n_cells: u32)
        requires
            n_cells >= 1,
            n_cells <= 0x1000_0000,
            cells@.len() <= 0x4000_0000,
            forall|i: int| 0 <= i < cells@.len() ==> #[trigger] cells@[i] < n_cells,
        ensures
            final(self).partitions(cells@, n_cells as int),
            final(self).thread_blocks == (n_cells + PREFIX_BLOCK - 1) as int
                / PREFIX_BLOCK as int,
    {
        let hist = count_cells(cells, n_cells);
        proof {
            assert forall|c: int| 0 <= c <= n_cells implies #[trigger] sum_counts(hist@, c)
                == offset_of(cells@, c) by {
                lemma_hist_prefix_is_offset(cells@, hist@, c);
            }
            lemma_count_below_all(cells@, n_cells as int, cells@.len() as int);
            assert(sum_counts(hist@, hist@.len() as int) == cells@.len());
        }
        let offsets = prefix_sum_offsets(&hist);
        let sorted = sort_particles(cells, &offsets, n_cells);
        self.thread_blocks = ((n_cells as usize + PREFIX_BLOCK - 1) / PREFIX_BLOCK) as u32;
        self.counter = hist;
        self.cell_offsets = offsets;
        self.sorted_indices = sorted;
        proof {
            assert(self.partitions(cells@, n_cells as int));
        }
    }
}

} // verus!

use vstd::prelude::*;

verus! {

/// An inclusive range of nonces `[start, end]` assigned to one worker.
#[derive(Clone, Copy, Debug, PartialEq, Eq, Structural)]
pub struct NonceRange {
    pub start: u64,
    pub end: u64,
}

impl NonceRange {
    pub open spec fn contains(self, nonce: int) -> bool {
        self.start <= nonce <= self.end
    }
}

/// Width of every range but the last, when the space is split `workers` ways.
pub open spec fn chunk_size(workers: int) -> int {
    u64::MAX as int / workers
}

pub open spec fn range_start(workers: int, i: int) -> int {
    i * chunk_size(workers)
}

/// The last range runs to `u64::MAX`, absorbing the remainder of the division.
pub open spec fn range_end(workers: int, i: int) -> int {
    if i == workers - 1 {
        u64::MAX as int
    } else {
        (i + 1) * chunk_size(workers) - 1
    }
}

/// Nonce `x` lies in range `i` of a split into `workers` ranges.
pub open spec fn in_range(workers: int, i: int, x: int) -> bool {
    range_start(workers, i) <= x <= range_end(workers, i)
}

/// Nonce `x` lies in some range of a split into `workers` ranges.
pub open spec fn covered(workers: int, x: int) -> bool {
    exists|i: int| 0 <= i < workers && #[trigger] in_range(workers, i, x)
}

pub proof fn lemma_range_bounds(workers: int, i: int)
    requires
        1 <= workers <= u64::MAX,
        0 <= i < workers,
    ensures
        0 <= range_start(workers, i) <= range_end(workers, i) <= u64::MAX,
        i < workers - 1 ==> range_end(workers, i) < u64::MAX,
{
    let c = chunk_size(workers);
    assert(c >= 1) by (nonlinear_arith)
        requires
            1 <= workers <= u64::MAX,
            c == u64::MAX as int / workers,
    ;
    assert(workers * c <= u64::MAX) by (nonlinear_arith)
        requires
            1 <= workers,
            c == u64::MAX as int / workers,
    ;
    assert(i * c <= (workers - 1) * c) by (nonlinear_arith)
        requires
            0 <= i < workers,
            c >= 1,
    ;
    assert((workers - 1) * c <= workers * c) by (nonlinear_arith)
        requires
            c >= 1,
    ;
    assert(0 <= i * c) by (nonlinear_arith)
        requires
            0 <= i,
            c >= 1,
    ;
    if i < workers - 1 {
        assert((i + 1) * c <= (workers - 1) * c) by (nonlinear_arith)
            requires
                0 <= i < workers - 1,
                c >= 1,
        ;
        assert((i + 1) * c == i * c + c) by (nonlinear_arith);
    }
}

/// The range that holds nonce `x`.
pub proof fn lemma_owner(workers: int, x: int) -> (i: int)
    requires
        1 <= workers <= u64::MAX,
        0 <= x <= u64::MAX,
    ensures
        0 <= i < workers,
        in_range(workers, i, x),
{
    let c = chunk_size(workers);
    assert(c >= 1) by (nonlinear_arith)
        requires
            1 <= workers <= u64::MAX,
            c == u64::MAX as int / workers,
    ;
        let q = x / c;
        let i = if q < workers - 1 { q } else { workers - 1 };
        lemma_range_bounds(workers, i);
        assert(q * c <= x < (q + 1) * c) by (nonlinear_arith)
            requires
                q == x / c,
                c >= 1,
                x >= 0,
        ;
        assert(0 <= q) by (nonlinear_arith)
            requires
                q == x / c,
                c >= 1,
                x >= 0,
        ;
        if q >= workers - 1 {
            assert((workers - 1) * c <= q * c) by (nonlinear_arith)
                requires
                    q >= workers - 1,
                    c >= 1,
            ;
        }
    i
}

/// The ranges for `workers` workers cover `[0, u64::MAX]` with no gap and no
/// overlap: the first starts at zero, the last ends at `u64::MAX`, each is
/// non-empty, and each one starts right after the one before it ends. So every
/// nonce lies in exactly one range.
pub proof fn lemma_partition_tiles(workers: int)
    requires
        1 <= workers <= u64::MAX,
    ensures
        range_start(workers, 0) == 0,
        range_end(workers, workers - 1) == u64::MAX,
        forall|i: int|
            0 <= i < workers ==> #[trigger] range_start(workers, i) <= range_end(workers, i),
        forall|i: int|
            0 <= i < workers - 1 ==> #[trigger] range_end(workers, i) + 1 == range_start(
                workers,
                i + 1,
            ),
        forall|x: int| 0 <= x <= u64::MAX ==> #[trigger] covered(workers, x),
        forall|x: int, i: int, j: int|
            0 <= i < workers && 0 <= j < workers && #[trigger] in_range(workers, i, x)
                && #[trigger] in_range(workers, j, x) ==> i == j,
{
    let c = chunk_size(workers);
    assert(range_start(workers, 0) == 0);
    assert forall|i: int| 0 <= i < workers implies #[trigger] range_start(workers, i) <= range_end(
        workers,
        i,
    ) by {
        lemma_range_bounds(workers, i);
    }
    assert forall|i: int| 0 <= i < workers - 1 implies #[trigger] range_end(workers, i) + 1
        == range_start(workers, i + 1) by {
        assert((i + 1) * c == i * c + c) by (nonlinear_arith);
    }
    assert(c >= 1) by (nonlinear_arith)
        requires
            1 <= workers <= u64::MAX,
            c == u64::MAX as int / workers,
    ;
    assert forall|x: int| 0 <= x <= u64::MAX implies #[trigger] covered(workers, x) by {
        let i = lemma_owner(workers, x);
        assert(in_range(workers, i, x));
    }
    assert forall|x: int, i: int, j: int|
        0 <= i < workers && 0 <= j < workers && #[trigger] in_range(workers, i, x)
            && #[trigger] in_range(workers, j, x) implies i == j by {
        if i < j {
            assert(range_end(workers, i) < range_start(workers, j)) by {
                assert((i + 1) * c <= j * c) by (nonlinear_arith)
                    requires
                        i + 1 <= j,
                        c >= 1,
                ;
            }
        } else if j < i {
            assert(range_end(workers, j) < range_start(workers, i)) by {
                assert((j + 1) * c <= i * c) by (nonlinear_arith)
                    requires
                        j + 1 <= i,
                        c >= 1,
                ;
            }
        }
    }
}

/// Split `[0, u64::MAX]` into `num_workers` contiguous ranges: range `i`
/// starts at `i * (u64::MAX / num_workers)`, and the last one ends at
/// `u64::MAX`.
pub fn partition(num_workers: usize) -> (r: Vec<NonceRange>)
    requires
        num_workers >= 1,
    ensures
        r@.len() == num_workers,
        forall|i: int|
            0 <= i < num_workers ==> {
                &&& r@[i].start == range_start(num_workers as int, i)
                &&& r@[i].end == range_end(num_workers as int, i)
            },
{
    let n = num_workers as u64;
    let chunk: u64 = u64::MAX / n;
    assert(chunk == chunk_size(n as int));
    let mut ranges: Vec<NonceRange> = Vec::new();
    let mut i: u64 = 0;
    while i < n
        invariant
            n == num_workers,
            1 <= n,
            chunk == chunk_size(n as int),
            i <= n,
            ranges@.len() == i,
            forall|k: int|
                0 <= k < i ==> {
                    &&& ranges@[k].start == range_start(n as int, k)
                    &&& ranges@[k].end == range_end(n as int, k)
                },
        decreases n - i,
    {
        proof {
            lemma_range_bounds(n as int, i as int);
            assert((i + 1) * chunk == i * chunk + chunk) by (nonlinear_arith);
        }
        let start = i * chunk;
        let end = if i == n - 1 {
            u64::MAX
        } else {
            (i + 1) * chunk - 1
        };
        ranges.push(NonceRange { start, end });
        i = i + 1;
    }
    ranges
}

} // verus!

use crate::digest::{sha256, sha256_of};
use crate::encoding::{
    decimal_bytes, decimal_digits, has_leading_zeros, hex_encode, hex_lower, leading_zeros,
    lemma_hex_lower_is_ascii,
};
use crate::partition::{in_range, lemma_owner, lemma_range_bounds, lemma_partition_tiles, partition, range_end, range_start, NonceRange};
use std::sync::atomic::{AtomicBool, AtomicU64, Ordering};
use vstd::prelude::*;
use vstd::string::StringSliceAdditionalSpecFns;

verus! {

/// Attempts a worker makes between two flushes of its count into the shared
/// counter, and between two looks at the stop flag.
pub const BATCH_SIZE: u64 = 100_000;

/// The bytes hashed for `nonce`: the prefix followed by the nonce in decimal.
pub open spec fn candidate(prefix: Seq<u8>, nonce: int) -> Seq<u8> {
    prefix + decimal_digits(nonce as nat)
}

/// Lowercase hex text of the digest of the candidate for `nonce`.
pub open spec fn candidate_hex(prefix: Seq<u8>, nonce: int) -> Seq<char> {
    hex_lower(sha256_of(candidate(prefix, nonce)))
}

/// The match predicate: the digest's hex text starts with `difficulty` zeros.
pub open spec fn is_match(prefix: Seq<u8>, nonce: int, difficulty: nat) -> bool {
    leading_zeros(candidate_hex(prefix, nonce), difficulty)
}

/// No nonce in `[lo, hi)` matches.
pub open spec fn no_match_in(prefix: Seq<u8>, difficulty: nat, lo: int, hi: int) -> bool {
    forall|n: int| lo <= n < hi ==> !#[trigger] is_match(prefix, n, difficulty)
}

/// `nonce` is the smallest matching nonce of `[lo, hi]`.
pub open spec fn is_first_match(
    prefix: Seq<u8>,
    difficulty: nat,
    lo: int,
    hi: int,
    nonce: int,
) -> bool {
    &&& lo <= nonce <= hi
    &&& is_match(prefix, nonce, difficulty)
    &&& no_match_in(prefix, difficulty, lo, nonce)
}

/// What one search is about: the prefix and the number of leading hex zeros.
#[derive(Debug)]
pub struct SearchConfig {
    pub prefix: String,
    pub difficulty: usize,
}

impl SearchConfig {
    pub fn new(prefix: String, difficulty: usize) -> (r: SearchConfig)
        ensures
            r.prefix@ == prefix@,
            r.difficulty == difficulty,
    {
        SearchConfig { prefix, difficulty }
    }

    /// The prefix as it is hashed: its UTF-8 bytes.
    pub open spec fn prefix_bytes(&self) -> Seq<u8> {
        vstd::utf8::encode_utf8(self.prefix@)
    }
}

/// A winning nonce and the hex text of its digest.
#[derive(Debug)]
pub struct MiningResult {
    pub nonce: u64,
    pub hash_hex: String,
}

impl MiningResult {
    /// `self` is the smallest match of `[lo, hi]`, with its digest text.
    pub open spec fn first_of(self, config: SearchConfig, lo: int, hi: int) -> bool {
        &&& is_first_match(config.prefix_bytes(), config.difficulty as nat, lo, hi, self.nonce as int)
        &&& self.hash_hex@ == candidate_hex(config.prefix_bytes(), self.nonce as int)
    }
}

/// Where a batch of attempts left off.
#[derive(Debug)]
pub enum BatchStep {
    /// A nonce matched.
    Found(MiningResult),
    /// The range ended without a match.
    Exhausted,
    /// The batch is used up; scanning goes on at this nonce.
    Continue(u64),
}

/// How one worker's scan of its range ended.
#[derive(Debug)]
pub enum WorkerOutcome {
    /// This worker found a match.
    Found(MiningResult),
    /// No nonce of the range matched.
    Exhausted,
    /// The stop flag was seen before this nonce was tried.
    Stopped(u64),
}

/// Hash the candidate for `nonce` and render the digest as lowercase hex.
pub fn candidate_hash_hex(prefix: &str, nonce: u64) -> (r: String)
    ensures
        r@ == candidate_hex(prefix.spec_bytes(), nonce as int),
{
    let mut data = vstd::slice::slice_to_vec(prefix.as_bytes());
    let mut digits = decimal_bytes(nonce);
    data.append(&mut digits);
    let digest = sha256(data.as_slice());
    hex_encode(digest.as_slice())
}

/// The match predicate on one nonce; returns the digest text too.
pub fn check_nonce(config: &SearchConfig, nonce: u64) -> (r: (bool, String))
    ensures
        r.0 == is_match(config.prefix_bytes(), nonce as int, config.difficulty as nat),
        r.1@ == candidate_hex(config.prefix_bytes(), nonce as int),
{
    let hash_hex = candidate_hash_hex(config.prefix.as_str(), nonce);
    proof {
        lemma_hex_lower_is_ascii(sha256_of(candidate(config.prefix_bytes(), nonce as int)));
    }
    let found = has_leading_zeros(hash_hex.as_str(), config.difficulty);
    (found, hash_hex)
}

/// Try the nonces from `next` up to `end` in increasing order, at most `batch`
/// of them, stopping at the first match. Returns the step reached and the
/// number of digests computed.
pub fn scan_batch(config: &SearchConfig, next: u64, end: u64, batch: u64) -> (r: (BatchStep, u64))
    requires
        next <= end,
        batch >= 1,
    ensures
        1 <= r.1 <= batch,
        match r.0 {
            BatchStep::Found(m) => m.first_of(*config, next as int, end as int) && r.1 == m.nonce
                - next + 1,
            BatchStep::Exhausted => no_match_in(
                config.prefix_bytes(),
                config.difficulty as nat,
                next as int,
                end + 1,
            ) && r.1 == end - next + 1,
            BatchStep::Continue(k) => next < k <= end && no_match_in(
                config.prefix_bytes(),
                config.difficulty as nat,
                next as int,
                k as int,
            ) && r.1 == batch && k == next + batch,
        },
{
    let mut nonce = next;
    let mut attempts: u64 = 0;
    loop
        invariant
            next <= nonce <= end,
            attempts == nonce - next,
            attempts < batch,
            no_match_in(config.prefix_bytes(), config.difficulty as nat, next as int, nonce as int),
        decreases end - nonce,
    {
        let (found, hash_hex) = check_nonce(config, nonce);
        attempts = attempts + 1;
        if found {
            return (BatchStep::Found(MiningResult { nonce, hash_hex }), attempts);
        }
        if nonce == end {
            return (BatchStep::Exhausted, attempts);
        }
        nonce = nonce + 1;
        if attempts == batch {
            return (BatchStep::Continue(nonce), attempts);
        }
    }
}

/// Scan `range` in increasing order, one batch at a time. Before each batch
/// the stop flag is read, and the scan ends if it is set; after each batch
/// its attempts are added to `counter`. On a match the stop flag is set.
pub fn mine_range(
    config: &SearchConfig,
    range: NonceRange,
    stop: &AtomicBool,
    counter: &AtomicU64,
) -> (r: WorkerOutcome)
    requires
        range.start <= range.end,
    ensures
        match r {
            WorkerOutcome::Found(m) => m.first_of(*config, range.start as int, range.end as int),
            WorkerOutcome::Exhausted => no_match_in(
                config.prefix_bytes(),
                config.difficulty as nat,
                range.start as int,
                range.end + 1,
            ),
            WorkerOutcome::Stopped(k) => range.start <= k <= range.end && no_match_in(
                config.prefix_bytes(),
                config.difficulty as nat,
                range.start as int,
                k as int,
            ),
        },
{
    let mut next = range.start;
    loop
        invariant
            range.start <= next <= range.end,
            no_match_in(
                config.prefix_bytes(),
                config.difficulty as nat,
                range.start as int,
                next as int,
            ),
        decreases range.end - next,
    {
        if stop.load(Ordering::Relaxed) {
            return WorkerOutcome::Stopped(next);
        }
        let (step, attempts) = scan_batch(config, next, range.end, BATCH_SIZE);
        counter.fetch_add(attempts, Ordering::Relaxed);
        match step {
            BatchStep::Found(m) => {
                stop.store(true, Ordering::Relaxed);
                return WorkerOutcome::Found(m);
            },
            BatchStep::Exhausted => {
                return WorkerOutcome::Exhausted;
            },
            BatchStep::Continue(k) => {
                next = k;
            },
        }
    }
}

/// Scan `range` in increasing order on the calling thread, with no stop flag.
/// Returns the smallest matching nonce of the range, or `None` if none
/// matches.
pub fn search_range(config: &SearchConfig, range: NonceRange) -> (r: Option<MiningResult>)
    requires
        range.start <= range.end,
    ensures
        match r {
            Some(m) => m.first_of(*config, range.start as int, range.end as int),
            None => no_match_in(
                config.prefix_bytes(),
                config.difficulty as nat,
                range.start as int,
                range.end + 1,
            ),
        },
{
    let mut next = range.start;
    loop
        invariant
            range.start <= next <= range.end,
            no_match_in(
                config.prefix_bytes(),
                config.difficulty as nat,
                range.start as int,
                next as int,
            ),
        decreases range.end - next,
    {
        let (step, _attempts) = scan_batch(config, next, range.end, BATCH_SIZE);
        match step {
            BatchStep::Found(m) => {
                return Some(m);
            },
            BatchStep::Exhausted => {
                return None;
            },
            BatchStep::Continue(k) => {
                next = k;
            },
        }
    }
}

/// Search the whole nonce space split among `num_workers` ranges, taking the
/// ranges in order and each range in order. The outcome is that of a single
/// scan of `[0, u64::MAX]`: the smallest matching nonce, or `None`.
pub fn search_partitioned(config: &SearchConfig, num_workers: usize) -> (r: Option<MiningResult>)
    requires
        num_workers >= 1,
    ensures
        match r {
            Some(m) => m.first_of(*config, 0, u64::MAX as int),
            None => no_match_in(
                config.prefix_bytes(),
                config.difficulty as nat,
                0,
                u64::MAX + 1,
            ),
        },
{
    let ranges = partition(num_workers);
    let ghost w = num_workers as int;
    let ghost p = config.prefix_bytes();
    let ghost d = config.difficulty as nat;
    proof {
        lemma_partition_tiles(w);
    }
    let mut i: usize = 0;
    while i < ranges.len()
        invariant
            ranges@.len() == w,
            1 <= w,
            w == num_workers,
            p == config.prefix_bytes(),
            d == config.difficulty as nat,
            i <= w,
            forall|k: int|
                0 <= k < w ==> {
                    &&& ranges@[k].start == range_start(w, k)
                    &&& ranges@[k].end == range_end(w, k)
                },
            forall|k: int| 0 <= k < w ==> #[trigger] range_start(w, k) <= range_end(w, k),
            forall|k: int| 0 <= k < w - 1 ==> #[trigger] range_end(w, k) + 1 == range_start(w, k + 1),
            range_start(w, 0) == 0,
            range_end(w, w - 1) == u64::MAX,
            i < w ==> no_match_in(p, d, 0, range_start(w, i as int)),
            i == w ==> no_match_in(p, d, 0, u64::MAX + 1),
        decreases w - i,
    {
        let range = ranges[i];
        match search_range(config, range) {
            Some(m) => {
                return Some(m);
            },
            None => {
                if i + 1 < ranges.len() {
                    assert(range_end(w, i as int) + 1 == range_start(w, i + 1));
                }
                i = i + 1;
            },
        }
    }
    None
}

/// Rehashing is a pure function of the hashed bytes: two nonces (under two
/// prefixes) whose candidate strings agree yield the same digest text, and so
/// the same verdict at every difficulty.
pub proof fn lemma_match_depends_only_on_candidate(
    prefix_a: Seq<u8>,
    nonce_a: int,
    prefix_b: Seq<u8>,
    nonce_b: int,
    difficulty: nat,
)
    requires
        candidate(prefix_a, nonce_a) == candidate(prefix_b, nonce_b),
    ensures
        candidate_hex(prefix_a, nonce_a) == candidate_hex(prefix_b, nonce_b),
        is_match(prefix_a, nonce_a, difficulty) == is_match(prefix_b, nonce_b, difficulty),
{
}

/// Partitioning does not change the answer: if no range before range `i`
/// holds a match, and `nonce` is the smallest match of range `i`, then
/// `nonce` is the smallest match of the whole space, the one a single worker
/// scanning `[0, u64::MAX]` reaches first.
pub proof fn lemma_partition_preserves_first_match(
    prefix: Seq<u8>,
    difficulty: nat,
    num_workers: int,
    i: int,
    nonce: int,
)
    requires
        1 <= num_workers <= u64::MAX,
        0 <= i < num_workers,
        forall|j: int|
            0 <= j < i ==> no_match_in(
                prefix,
                difficulty,
                range_start(num_workers, j),
                #[trigger] range_end(num_workers, j) + 1,
            ),
        is_first_match(
            prefix,
            difficulty,
            range_start(num_workers, i),
            range_end(num_workers, i),
            nonce,
        ),
    ensures
        is_first_match(prefix, difficulty, 0, u64::MAX as int, nonce),
{
    lemma_range_bounds(num_workers, i);
    assert forall|n: int| 0 <= n < nonce implies !#[trigger] is_match(prefix, n, difficulty) by {
        if n < range_start(num_workers, i) {
            let j = lemma_owner(num_workers, n);
            if j >= i {
                lemma_starts_increase(num_workers, i, j);
            }
            assert(j < i);
            assert(no_match_in(
                prefix,
                difficulty,
                range_start(num_workers, j),
                range_end(num_workers, j) + 1,
            ));
        }
    }
}

/// Later ranges start no earlier.
proof fn lemma_starts_increase(num_workers: int, i: int, j: int)
    requires
        1 <= num_workers <= u64::MAX,
        0 <= i <= j < num_workers,
    ensures
        range_start(num_workers, i) <= range_start(num_workers, j),
{
    let c = u64::MAX as int / num_workers;
    assert(c >= 0) by (nonlinear_arith)
        requires
            1 <= num_workers,
            c == u64::MAX as int / num_workers,
    ;
    assert(i * c <= j * c) by (nonlinear_arith)
        requires
            0 <= i <= j,
            c >= 0,
    ;
}

/// Two smallest matches of one range are the same nonce.
pub proof fn lemma_first_match_unique(
    prefix: Seq<u8>,
    difficulty: nat,
    lo: int,
    hi: int,
    a: int,
    b: int,
)
    requires
        is_first_match(prefix, difficulty, lo, hi, a),
        is_first_match(prefix, difficulty, lo, hi, b),
    ensures
        a == b,
{
    if a < b {
        assert(!is_match(prefix, a, difficulty));
    } else if b < a {
        assert(!is_match(prefix, b, difficulty));
    }
}

} // verus!

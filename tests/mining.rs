use pow_miner::encoding::{decimal_bytes, has_leading_zeros};
use pow_miner::partition::{partition, NonceRange};
use pow_miner::progress::ProgressTracker;
use pow_miner::search::{
    candidate_hash_hex, check_nonce, mine_range, scan_batch, search_partitioned, search_range,
    BatchStep, SearchConfig, WorkerOutcome, BATCH_SIZE,
};
use std::sync::atomic::{AtomicBool, AtomicU64, Ordering};

fn config(prefix: &str, difficulty: usize) -> SearchConfig {
    SearchConfig::new(prefix.to_string(), difficulty)
}

#[test]
fn decimal_bytes_writes_digits() {
    assert_eq!(decimal_bytes(0), b"0".to_vec());
    assert_eq!(decimal_bytes(7), b"7".to_vec());
    assert_eq!(decimal_bytes(10), b"10".to_vec());
    assert_eq!(decimal_bytes(12345), b"12345".to_vec());
    assert_eq!(decimal_bytes(u64::MAX), b"18446744073709551615".to_vec());
}

#[test]
fn leading_zero_check_counts_characters() {
    assert!(has_leading_zeros("00ab", 0));
    assert!(has_leading_zeros("00ab", 2));
    assert!(!has_leading_zeros("00ab", 3));
    assert!(!has_leading_zeros("0", 2));
    assert!(has_leading_zeros("", 0));
    assert!(!has_leading_zeros("a000", 1));
}

#[test]
fn candidate_hash_is_hex_sha256_of_prefix_and_nonce() {
    assert_eq!(
        candidate_hash_hex("abc", 0),
        "56abfbd7d2ea606e667945422de5a368b8b0272b8f29081cb058b594dd7e3249"
    );
    assert_eq!(
        candidate_hash_hex("test", 304),
        "009fa371cd0b736ab80e8d55c5741944dd0e740bbd92c97808f740a03722576b"
    );
}

#[test]
fn rehashing_gives_the_same_digest() {
    let a = candidate_hash_hex("weimeityy", 792);
    let b = candidate_hash_hex("weimeityy", 792);
    assert_eq!(a, b);
    // "ab" + 12 and "ab1" + 2 hash the same bytes.
    assert_eq!(candidate_hash_hex("ab", 12), candidate_hash_hex("ab1", 2));
}

#[test]
fn check_nonce_applies_the_predicate() {
    let (found, hex) = check_nonce(&config("test", 2), 304);
    assert!(found);
    assert_eq!(hex, "009fa371cd0b736ab80e8d55c5741944dd0e740bbd92c97808f740a03722576b");
    let (found, _) = check_nonce(&config("test", 3), 304);
    assert!(!found);
    let (found, _) = check_nonce(&config("abc", 1), 0);
    assert!(!found);
}

#[test]
fn difficulty_zero_accepts_the_first_nonce() {
    let r = search_range(&config("abc", 0), NonceRange { start: 0, end: u64::MAX }).unwrap();
    assert_eq!(r.nonce, 0);
    assert_eq!(r.hash_hex, "56abfbd7d2ea606e667945422de5a368b8b0272b8f29081cb058b594dd7e3249");
    let (step, attempts) = scan_batch(&config("abc", 0), 0, u64::MAX, BATCH_SIZE);
    assert_eq!(attempts, 1);
    assert!(matches!(step, BatchStep::Found(m) if m.nonce == 0));
}

#[test]
fn difficulty_two_finds_the_smallest_nonce() {
    let r = search_range(&config("test", 2), NonceRange { start: 0, end: u64::MAX }).unwrap();
    assert_eq!(r.nonce, 304);
    assert!(r.hash_hex.starts_with("00"));
    for n in 0..304u64 {
        assert!(!candidate_hash_hex("test", n).starts_with("00"));
    }
}

#[test]
fn single_worker_matches_many_workers() {
    for (prefix, difficulty, expected) in [("test", 2, 304u64), ("abc", 1, 26), ("abc", 2, 252)] {
        let one = search_partitioned(&config(prefix, difficulty), 1).unwrap();
        let many = search_partitioned(&config(prefix, difficulty), 8).unwrap();
        assert_eq!(one.nonce, expected);
        assert_eq!(one.nonce, many.nonce);
        assert_eq!(one.hash_hex, many.hash_hex);
    }
}

#[test]
fn scan_batch_stops_at_the_batch_size() {
    let (step, attempts) = scan_batch(&config("test", 2), 0, u64::MAX, 100);
    assert_eq!(attempts, 100);
    assert!(matches!(step, BatchStep::Continue(100)));
}

#[test]
fn scan_batch_reports_an_exhausted_range() {
    let (step, attempts) = scan_batch(&config("test", 2), 0, 9, 100);
    assert_eq!(attempts, 10);
    assert!(matches!(step, BatchStep::Exhausted));
}

#[test]
fn scan_batch_at_the_top_of_the_space_does_not_wrap() {
    let (step, attempts) = scan_batch(&config("test", 64), u64::MAX - 2, u64::MAX, 100);
    assert_eq!(attempts, 3);
    assert!(matches!(step, BatchStep::Exhausted));
}

#[test]
fn mine_range_finds_a_match_and_raises_the_stop_flag() {
    let stop = AtomicBool::new(false);
    let counter = AtomicU64::new(0);
    let outcome = mine_range(
        &config("weimeityy", 3),
        NonceRange { start: 0, end: u64::MAX },
        &stop,
        &counter,
    );
    match outcome {
        WorkerOutcome::Found(m) => {
            assert_eq!(m.nonce, 792);
            assert_eq!(
                m.hash_hex,
                "000c4c2ad2b1c94947936e5a1002788477105dd8adba33e2f55e7fd98b318fb4"
            );
        }
        other => panic!("unexpected outcome {:?}", other),
    }
    assert!(stop.load(Ordering::Relaxed));
    assert_eq!(counter.load(Ordering::Relaxed), 793);
}

#[test]
fn mine_range_stops_when_the_flag_is_already_set() {
    let stop = AtomicBool::new(true);
    let counter = AtomicU64::new(0);
    let outcome =
        mine_range(&config("test", 2), NonceRange { start: 5, end: 1000 }, &stop, &counter);
    assert!(matches!(outcome, WorkerOutcome::Stopped(5)));
    assert_eq!(counter.load(Ordering::Relaxed), 0);
}

#[test]
fn mine_range_counts_every_attempt_of_an_exhausted_range() {
    let stop = AtomicBool::new(false);
    let counter = AtomicU64::new(0);
    let outcome =
        mine_range(&config("test", 2), NonceRange { start: 0, end: 250 }, &stop, &counter);
    assert!(matches!(outcome, WorkerOutcome::Exhausted));
    assert!(!stop.load(Ordering::Relaxed));
    assert_eq!(counter.load(Ordering::Relaxed), 251);
}

#[test]
fn partition_single_worker_takes_everything() {
    assert_eq!(partition(1), vec![NonceRange { start: 0, end: u64::MAX }]);
}

#[test]
fn partition_ranges_are_adjacent_and_cover_the_space() {
    for n in [2usize, 3, 7, 8, 16] {
        let ranges = partition(n);
        assert_eq!(ranges.len(), n);
        assert_eq!(ranges[0].start, 0);
        assert_eq!(ranges[n - 1].end, u64::MAX);
        let chunk = u64::MAX / n as u64;
        for i in 0..n {
            assert!(ranges[i].start <= ranges[i].end);
            assert_eq!(ranges[i].start, i as u64 * chunk);
            if i + 1 < n {
                assert_eq!(ranges[i].end + 1, ranges[i + 1].start);
            }
        }
    }
}

#[test]
fn partition_three_workers_exact_bounds() {
    let chunk = u64::MAX / 3;
    assert_eq!(
        partition(3),
        vec![
            NonceRange { start: 0, end: chunk - 1 },
            NonceRange { start: chunk, end: 2 * chunk - 1 },
            NonceRange { start: 2 * chunk, end: u64::MAX },
        ]
    );
}

#[test]
fn progress_tracker_reports_growth() {
    let mut t = ProgressTracker::new();
    assert_eq!(t.last_count, 0);
    assert_eq!(t.observe(100_000), 100_000);
    assert_eq!(t.observe(250_000), 150_000);
    assert_eq!(t.observe(250_000), 0);
    assert_eq!(t.observe(10), 0);
    assert_eq!(t.last_count, 250_000);
}

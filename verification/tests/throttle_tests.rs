use gos3lih::throttle::{BucketRegistry, Direction, TokenBucket, MIN_BURST, UNITS_PER_BYTE};

#[test]
fn new_bucket_is_full() {
    let b = TokenBucket::new(1000, 2000, 5);
    assert_eq!(b.capacity(), 2000);
    assert_eq!(b.rate_bps(), 1000);
    assert_eq!(b.tokens_units(), 2000 * UNITS_PER_BYTE as i128);
    assert_eq!(b.last_refill_ns(), 5);
}

#[test]
fn consume_within_and_beyond_the_burst() {
    let mut b = TokenBucket::new(1000, 2000, 0);
    assert_eq!(b.consume(1500, 0), Ok(()));
    assert_eq!(b.tokens_units(), 500_000_000_000);
    // 500 bytes short at 1000 bytes per second: half a second.
    assert_eq!(b.consume(1000, 0), Err(500_000_000));
    assert_eq!(b.tokens_units(), -500_000_000_000);
    // One second later the debt is repaid and 500 bytes are back.
    assert_eq!(b.consume(0, 1_000_000_000), Ok(()));
    assert_eq!(b.tokens_units(), 500_000_000_000);
    assert_eq!(b.last_refill_ns(), 1_000_000_000);
}

#[test]
fn refill_never_exceeds_capacity() {
    let mut b = TokenBucket::new(1_000_000, 100, 0);
    assert_eq!(b.consume(100, 0), Ok(()));
    assert_eq!(b.consume(0, 10_000_000_000), Ok(()));
    assert_eq!(b.tokens_units(), 100 * UNITS_PER_BYTE as i128);
}

#[test]
fn wait_rounds_up() {
    let mut b = TokenBucket::new(3, 0, 0);
    // 1 byte at 3 bytes per second: 333333333.3 ns, rounded up.
    assert_eq!(b.consume(1, 0), Err(333_333_334));
}

#[test]
fn a_bucket_that_does_not_refill_waits_longest() {
    let mut b = TokenBucket::new(0, 10, 0);
    assert_eq!(b.consume(20, 5), Err(u64::MAX));
}

#[test]
fn clock_going_back_refills_nothing() {
    let mut b = TokenBucket::new(1000, 2000, 1_000);
    assert_eq!(b.consume(2000, 1_000), Ok(()));
    assert_eq!(b.consume(0, 0), Ok(()));
    assert_eq!(b.tokens_units(), 0);
}

#[test]
fn set_rate_keeps_tokens() {
    let mut b = TokenBucket::new(1000, 2000, 0);
    assert_eq!(b.consume(500, 0), Ok(()));
    b.set_rate(50);
    assert_eq!(b.rate_bps(), 50);
    assert_eq!(b.tokens_units(), 1500 * UNITS_PER_BYTE as i128);
}

#[test]
fn registry_creates_buckets_per_address_and_direction() {
    let mut r = BucketRegistry::new();
    assert!(r.get(7, Direction::Download).is_none());
    let b = r.get_or_create(7, Direction::Download, 1000, 0);
    assert_eq!(b.capacity(), MIN_BURST);
    assert_eq!(b.rate_bps(), 1000);
    let big = r.get_or_create(7, Direction::Upload, 1_000_000, 0);
    assert_eq!(big.capacity(), 1_000_000);
    // An existing bucket keeps its own rate.
    let again = r.get_or_create(7, Direction::Download, 5, 0);
    assert_eq!(again.rate_bps(), 1000);
    assert!(r.get(8, Direction::Download).is_none());
}

#[test]
fn registry_consume_charges_one_bucket() {
    let mut r = BucketRegistry::new();
    assert_eq!(r.consume(7, Direction::Download, 1000, 100, 0), Ok(()));
    let d = r.get(7, Direction::Download).unwrap();
    assert_eq!(d.tokens_units(), (MIN_BURST as i128 - 100) * UNITS_PER_BYTE as i128);
    assert!(r.get(7, Direction::Upload).is_none());
    assert_eq!(r.consume(7, Direction::Download, 1000, MIN_BURST, 0), Err(100_000_000));
}

#[test]
fn registry_update_rate_and_remove() {
    let mut r = BucketRegistry::new();
    r.update_rate(&7, Direction::Download, 10);
    assert!(r.get(7, Direction::Download).is_none());
    r.get_or_create(7, Direction::Download, 1000, 0);
    r.get_or_create(7, Direction::Upload, 1000, 0);
    r.get_or_create(8, Direction::Upload, 1000, 0);
    r.update_rate(&7, Direction::Download, 10);
    assert_eq!(r.get(7, Direction::Download).unwrap().rate_bps(), 10);
    assert_eq!(r.get(7, Direction::Upload).unwrap().rate_bps(), 1000);
    r.remove(&7);
    assert!(r.get(7, Direction::Download).is_none());
    assert!(r.get(7, Direction::Upload).is_none());
    assert!(r.get(8, Direction::Upload).is_some());
}

#[test]
fn debt_is_not_capped() {
    let mut b = TokenBucket::new(1, 0, 0);
    assert_eq!(b.consume(u64::MAX, 0), Err(u64::MAX));
    assert_eq!(b.consume(u64::MAX, 0), Err(u64::MAX));
    assert_eq!(b.tokens_units(), -2 * (u64::MAX as i128) * UNITS_PER_BYTE as i128);
}

#[test]
fn later_callers_wait_behind_earlier_ones() {
    let mut b = TokenBucket::new(1000, 0, 0);
    assert_eq!(b.consume(100, 0), Err(100_000_000));
    assert_eq!(b.consume(50, 0), Err(150_000_000));
    // 100 ms later the first debt is repaid; the second still waits 50 ms.
    assert_eq!(b.consume(0, 100_000_000), Err(50_000_000));
}

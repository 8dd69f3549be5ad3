use beacon_rand::bitpool::BitPool;
use beacon_rand::errors::SamplerError;
use beacon_rand::pulse::PulseRecord;
use beacon_rand::sampler::bit_width;
use beacon_rand::sampler::draw;
use beacon_rand::sampler::pack_bits;
use beacon_rand::sampler::DrawOutcome;
use beacon_rand::sampler::Sampler;

fn zero_pulse(chain_index: i32, pulse_index: i64) -> PulseRecord {
    let hex = "0".repeat(128);
    PulseRecord::from_parts(
        String::from("uri"),
        chain_index,
        pulse_index,
        "1970-01-01T00:00:00Z",
        &hex,
    )
    .unwrap()
}

#[test]
fn bit_width_is_ceil_log2() {
    assert_eq!(bit_width(2), 1);
    assert_eq!(bit_width(3), 2);
    assert_eq!(bit_width(4), 2);
    assert_eq!(bit_width(6), 3);
    assert_eq!(bit_width(8), 3);
    assert_eq!(bit_width(9), 4);
    assert_eq!(bit_width(256), 8);
    assert_eq!(bit_width(4294967296), 32);
}

#[test]
fn pack_bits_is_msb_first() {
    assert_eq!(pack_bits(&vec![true, true, false]), 6);
    assert_eq!(pack_bits(&vec![false, false, false]), 0);
    assert_eq!(pack_bits(&vec![true; 32]), 0xFFFF_FFFF);
    assert_eq!(pack_bits(&Vec::new()), 0);
}

#[test]
fn degenerate_ranges_return_from() {
    let mut s = Sampler::new();
    assert_eq!(s.rand(5, 5, Vec::new()), Ok(5));
    assert_eq!(s.rand(10, 3, Vec::new()), Ok(10));
    assert_eq!(s.rand(-7, -7, Vec::new()), Ok(-7));
    assert_eq!(s.pool_len(), 0);
    assert_eq!(s.ledger_len(), 0);
}

#[test]
fn rejection_never_surfaces_out_of_range_groups() {
    // Range of six outcomes, so three-bit groups: feed 110 (six) and
    // 111 (seven), which must both be rejected, then 000, which must be
    // accepted as the low end of the range.
    let mut pool = BitPool::new();
    let mut chunk = vec![0u8; 64];
    chunk[0] = 0b1101_1100;
    pool.insert(&chunk);
    let r = draw(&mut pool, 1, 6);
    assert_eq!(r, DrawOutcome::Value(1));
    // Three groups of three bits were consumed.
    assert_eq!(pool.len(), 512 - 9);
}

#[test]
fn values_stay_in_range() {
    let mut pool = BitPool::new();
    let mut chunk = vec![0u8; 64];
    for i in 0..64 {
        chunk[i] = (i as u8).wrapping_mul(101).wrapping_add(73);
    }
    pool.insert(&chunk);
    for _ in 0..20 {
        match draw(&mut pool, 3, 17) {
            DrawOutcome::Value(v) => assert!(3 <= v && v <= 17),
            DrawOutcome::NeedBits => break,
        }
    }
}

#[test]
fn rand_empty_supply_reports_no_new_pulse() {
    let mut s = Sampler::new();
    assert_eq!(s.rand(0, 255, Vec::new()), Err(SamplerError::NoNewPulse));
}

#[test]
fn rand_fetches_once_appends_and_returns_low_end() {
    // Beacon publishes pulse (chain 1, pulse 100) whose output is all
    // zeros; the ledger is empty.  A draw over six outcomes consumes one
    // pulse, records it, and returns the low end of the range.
    let mut s = Sampler::new();
    let r = s.rand(1, 6, vec![zero_pulse(1, 100)]);
    assert_eq!(r, Ok(1));
    assert_eq!(s.ledger_len(), 1);
    // One three-bit group was accepted out of one 512-bit pulse.
    assert_eq!(s.pool_len(), 512 - 3);
}

#[test]
fn rand_over_the_widest_range() {
    let mut s = Sampler::new();
    let r = s.rand(0, 4294967295, vec![zero_pulse(1, 1)]);
    assert_eq!(r, Ok(0));
    assert_eq!(s.pool_len(), 512 - 32);
}

#[test]
fn rand_reports_stale_beacon() {
    let mut s = Sampler::new();
    assert_eq!(s.rand(1, 6, vec![zero_pulse(1, 100)]), Ok(1));
    // The beacon still publishes the same pulse; draining the pool and
    // asking again must surface the stale beacon, leaving state intact.
    let drained = s.rand(0, 4294967295, Vec::new());
    assert!(matches!(drained, Ok(_) | Err(SamplerError::NoNewPulse)));
    while s.pool_len() >= 32 {
        s.rand(0, 4294967295, Vec::new()).unwrap();
    }
    let r = s.rand(0, 4294967295, vec![zero_pulse(1, 100)]);
    assert_eq!(r, Err(SamplerError::NoNewPulse));
    assert_eq!(s.ledger_len(), 1);
}

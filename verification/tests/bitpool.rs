use beacon_rand::bitpool::BitPool;

const N_BYTES: usize = 64;

fn assert_buffer_eq(bq: &BitPool, expected: &[u8; N_BYTES * 2]) {
    for i in 0..N_BYTES * 2 {
        assert_eq!(bq.byte_at(i), expected[i]);
    }
}

#[test]
fn test_bitqueue_simple() {
    let bq = BitPool::new();
    assert_buffer_eq(&bq, &[0u8; N_BYTES * 2]);
    assert_eq!(bq.cursor(), 0);
    assert_eq!(bq.len(), 0);
    assert!(bq.start_at_zero());
}

#[test]
fn test_bitqueue_insert_one() {
    let mut bq = BitPool::new();
    let mut new_rand = vec![0u8; N_BYTES];
    const S: u8 = 0b1100_0000;
    const E: u8 = 0b0000_0101;
    new_rand[0] = S;
    new_rand[N_BYTES - 1] = E;

    bq.insert(&new_rand);

    let mut exp_rand = [0u8; N_BYTES * 2];
    exp_rand[0] = S;
    exp_rand[N_BYTES - 1] = E;
    assert_buffer_eq(&bq, &exp_rand);
    assert_eq!(bq.cursor(), 0);
    assert_eq!(bq.len(), N_BYTES * 8);
    assert!(!bq.start_at_zero());

    let e = bq.pop_front(3);
    assert_eq!(e.len(), 3);
    assert!(e[0]);
    assert!(e[1]);
    assert!(!e[2]);

    assert_buffer_eq(&bq, &exp_rand);
    assert_eq!(bq.cursor(), 3);
    assert_eq!(bq.len(), N_BYTES * 8 - 3);
    assert!(!bq.start_at_zero());

    let _ = bq.pop_front(5 + (N_BYTES - 2) * 8 + 3);

    let e = bq.pop_front(5);
    assert_eq!(e.len(), 5);
    assert!(!e[0]);
    assert!(!e[1]);
    assert!(e[2]);
    assert!(!e[3]);
    assert!(e[4]);

    assert_buffer_eq(&bq, &exp_rand);
    assert_eq!(bq.cursor(), N_BYTES * 8);
    assert_eq!(bq.len(), 0);
    assert!(!bq.start_at_zero());
}

#[test]
fn test_bitqueue_insert_two() {
    let mut bq = BitPool::new();
    let mut new_rand = vec![0u8; N_BYTES];
    const S: u8 = 0b1100_0000;
    const E: u8 = 0b0000_0101;
    new_rand[0] = S;
    new_rand[N_BYTES - 1] = E;

    bq.insert(&new_rand);

    let _ = bq.pop_front((N_BYTES - 1) * 8 + 3);

    // 5 bits remain; insert another pulse.

    let mut exp_rand = [0u8; N_BYTES * 2];
    exp_rand[0] = S;
    exp_rand[N_BYTES - 1] = E;
    exp_rand[N_BYTES] = S;
    exp_rand[N_BYTES * 2 - 1] = E;

    bq.insert(&new_rand);
    assert_buffer_eq(&bq, &exp_rand);
    assert_eq!(bq.cursor(), N_BYTES * 8 - 5);
    assert_eq!(bq.len(), N_BYTES * 8 + 5);
    assert!(bq.start_at_zero());

    let e = bq.pop_front(6);
    assert_eq!(e.len(), 6);
    assert!(!e[0]);
    assert!(!e[1]);
    assert!(e[2]);
    assert!(!e[3]);
    assert!(e[4]);
    assert!(e[5]);

    assert_buffer_eq(&bq, &exp_rand);
    assert_eq!(bq.cursor(), N_BYTES * 8 + 1);
    assert_eq!(bq.len(), N_BYTES * 8 - 1);
    assert!(bq.start_at_zero());

    let _ = bq.pop_front(7 + (N_BYTES - 2) * 8 + 4);

    let e = bq.pop_front(2);
    assert_eq!(e.len(), 2);
    assert!(!e[0]);
    assert!(e[1]);

    assert_buffer_eq(&bq, &exp_rand);
    assert_eq!(bq.cursor(), N_BYTES * 8 * 2 - 2);
    assert_eq!(bq.len(), 2);
    assert!(bq.start_at_zero());

    let e = bq.pop_front(2);
    assert_eq!(e.len(), 2);
    assert!(!e[0]);
    assert!(e[1]);

    assert_buffer_eq(&bq, &exp_rand);
    assert_eq!(bq.cursor(), 0);
    assert_eq!(bq.len(), 0);
    assert!(bq.start_at_zero());
}

#[test]
fn test_bitqueue_insert_three() {
    let mut bq = BitPool::new();
    let mut new_rand = vec![0u8; N_BYTES];
    const S: u8 = 0b1100_0000;
    const E: u8 = 0b0000_0101;
    new_rand[0] = S;
    new_rand[N_BYTES - 1] = E;

    bq.insert(&new_rand);
    bq.insert(&new_rand);

    let _ = bq.pop_front(N_BYTES * 2 * 8 - 3);

    assert_eq!(bq.len(), 3);

    const NS: u8 = 0b0100_0000;
    const NE: u8 = 0b0000_0010;
    new_rand[0] = NS;
    new_rand[N_BYTES - 1] = NE;

    let mut exp_rand = [0u8; N_BYTES * 2];
    exp_rand[0] = NS;
    exp_rand[N_BYTES - 1] = NE;
    exp_rand[N_BYTES] = S;
    exp_rand[N_BYTES * 2 - 1] = E;

    bq.insert(&new_rand);
    assert_buffer_eq(&bq, &exp_rand);
    assert_eq!(bq.cursor(), N_BYTES * 2 * 8 - 3);
    assert_eq!(bq.len(), N_BYTES * 8 + 3);
    assert!(!bq.start_at_zero());

    let e = bq.pop_front(7);
    assert_eq!(e.len(), 7);
    assert!(e[0]);
    assert!(!e[1]);
    assert!(e[2]);
    assert!(!e[3]);
    assert!(e[4]);
    assert!(!e[5]);
    assert!(!e[6]);

    assert_buffer_eq(&bq, &exp_rand);
    assert_eq!(bq.cursor(), 4);
    assert_eq!(bq.len(), N_BYTES * 8 - 4);
    assert!(!bq.start_at_zero());
}

#[test]
fn insert_then_full_pop_round_trips() {
    let mut bq = BitPool::new();
    let mut chunk = vec![0u8; N_BYTES];
    for i in 0..N_BYTES {
        chunk[i] = (i as u8).wrapping_mul(37).wrapping_add(11);
    }
    bq.insert(&chunk);
    let bits = bq.pop_front(N_BYTES * 8);
    assert_eq!(bits.len(), N_BYTES * 8);
    for i in 0..N_BYTES * 8 {
        let expected = (chunk[i / 8] >> (7 - (i % 8))) & 1 == 1;
        assert_eq!(bits[i], expected);
    }
    assert_eq!(bq.len(), 0);
}

#[test]
fn pops_are_fifo_and_disjoint() {
    let mut bq = BitPool::new();
    let mut chunk = vec![0u8; N_BYTES];
    chunk[0] = 0b1011_0101;
    chunk[1] = 0b1100_0011;
    bq.insert(&chunk);
    let a = bq.pop_front(5);
    let b = bq.pop_front(6);
    let c = bq.pop_front(5);
    // First sixteen bits, split 5/6/5: 10110 101110 00011.
    assert_eq!(a, vec![true, false, true, true, false]);
    assert_eq!(b, vec![true, false, true, true, true, false]);
    assert_eq!(c, vec![false, false, false, true, true]);
    assert_eq!(bq.len(), N_BYTES * 8 - 16);
}

use triple_triad::rand::{shuffle, Rng};

#[test]
fn seeding_follows_splitmix64() {
    let rng = Rng::from_seed(0);
    assert_eq!(rng.state()[0], 0xe220a8397b1dcdaf);
    assert_eq!(rng.state()[1], 0x6e789e6aa1b965f4);
    assert_eq!(rng.state()[2], 0x06c45d188009454f);
    assert_eq!(rng.state()[3], 0xf88bb8a8724c81ec);
}

#[test]
fn bytes_come_lowest_first_from_each_output() {
    let mut a = Rng::from_state([1, 2, 3, 4]);
    // xoshiro256++ on [1, 2, 3, 4]: rotl(1 + 4, 23) + 1
    let first: u64 = (5u64 << 23) + 1;
    let bytes: Vec<u8> = (0..8).map(|_| a.u8()).collect();
    assert_eq!(bytes, first.to_le_bytes().to_vec());
    assert_eq!(a.state(), [7, 0, 262146, 6u64 << 45]);
}

#[test]
fn ranged_values_stay_in_range() {
    let mut rng = Rng::from_seed(12345);
    for _ in 0..1000 {
        let v = rng.u8_in(3..9);
        assert!((3..9).contains(&v));
    }
    assert_eq!(rng.u8_in(7..7), 7);
}

#[test]
fn shuffle_keeps_elements() {
    let mut rng = Rng::from_seed(7);
    let mut v: Vec<u8> = (0..110).collect();
    shuffle(&mut rng, &mut v, 10);
    let mut sorted = v.clone();
    sorted.sort();
    assert_eq!(sorted, (0..110).collect::<Vec<u8>>());
}

#[test]
fn shuffle_of_zero_steps_changes_nothing() {
    let mut rng = Rng::from_seed(3);
    let mut v: Vec<u8> = (0..20).collect();
    shuffle(&mut rng, &mut v, 0);
    assert_eq!(v, (0..20).collect::<Vec<u8>>());
    assert_eq!(rng.state(), Rng::from_seed(3).state());
}

#[test]
fn equal_seeds_draw_equal_sequences() {
    let mut a = Rng::from_seed(99);
    let mut b = Rng::from_seed(99);
    for i in 0..200u8 {
        let hi = 1 + i % 200;
        assert_eq!(a.u8_in(0..hi), b.u8_in(0..hi));
        assert_eq!(a.u8(), b.u8());
    }
}

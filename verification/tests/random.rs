use forest::random::Random;

#[test]
fn test_next_returns_state_before_advancing() {
    let mut rng = Random::new(42);
    // The first draw is the seed itself: the generator returns the
    // pre-mutation state.
    assert_eq!(rng.next(), 42);
    assert_eq!(rng.next(), 51951924412794);
    assert_eq!(rng.next(), 4611686064229190314);
    assert_eq!(rng.next(), 6914150640608317432);
}

#[test]
fn test_same_seed_same_sequence() {
    let mut a = Random::new(123123);
    let mut b = Random::new(123123);
    for _ in 0..100 {
        assert_eq!(a.next(), b.next());
    }
}

#[test]
fn test_pick_empty_list_consumes_no_draw() {
    let mut rng = Random::new(7);
    let empty: Vec<u32> = vec![];
    assert_eq!(rng.pick(&empty), None);
    assert_eq!(rng.next(), 7);
}

#[test]
fn test_pick_indexes_by_state_modulo_length() {
    // Seed 7 picks index 7 % 3 == 1 and consumes exactly one draw.
    let mut rng = Random::new(7);
    let list = vec![10, 20, 30];
    assert_eq!(rng.pick(&list), Some(20));
    assert_eq!(rng.next(), 8658654068799);
}

#[test]
fn test_shuffle_swap_and_append_pattern() {
    let mut rng = Random::new(42);
    let mut list = vec![1, 2, 3, 4, 5];
    rng.shuffle(&mut list);
    assert_eq!(list, vec![5, 2, 3, 4, 1]);
}

#[test]
fn test_shuffle_empty_list() {
    let mut rng = Random::new(42);
    let mut list: Vec<u8> = vec![];
    rng.shuffle(&mut list);
    assert!(list.is_empty());
    assert_eq!(rng.next(), 42);
}

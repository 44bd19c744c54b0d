use forest::cell::decode;
use forest::config::ForestConfig;
use forest::forest::Forest;

#[test]
fn test_determinism_same_seed_same_run() {
    let mut a = Forest::new(2024, 6, 5);
    let mut b = Forest::new(2024, 6, 5);
    assert_eq!(a.map(), b.map());
    for _ in 0..30 {
        a.update();
        b.update();
        assert_eq!(a.map(), b.map());
        assert_eq!(a.yearly_lumber(), b.yearly_lumber());
        assert_eq!(a.yearly_mauls(), b.yearly_mauls());
    }
}

#[test]
fn test_initial_population_small_grid() {
    // 16 cells: one bear, two jacks, eight trees, placed in that order.
    let forest = Forest::new(42, 4, 4);
    assert_eq!(forest.width(), 4);
    assert_eq!(forest.height(), 4);
    assert_eq!(forest.map().len(), 16);
    assert_eq!(forest.count_bears(), 1);
    assert_eq!(forest.count_jacks(), 2);
    assert_eq!(forest.count_trees(), 8);
}

#[test]
fn test_initial_layout_small_grid() {
    // The exact starting grid for this seed. Each placement checks only the
    // entity's own bitfield, so different types may stack on one cell: here
    // one jack lands on the bear's cell and the other jack on a tree's cell,
    // leaving seven fully empty cells rather than five.
    let forest = Forest::new(42, 4, 4);
    let expected: Vec<u16> = vec![
        0x0001, 0x0001, 0x0000, 0x0001, 0x0000, 0x0001, 0x0000, 0x0001, 0x0101, 0x0000, 0x1100,
        0x0000, 0x0000, 0x0001, 0x0000, 0x0001,
    ];
    assert_eq!(forest.map().clone(), expected);
    let empty = forest.map().iter().filter(|&&c| c == 0).count();
    assert_eq!(empty, 7);
}

#[test]
fn test_year_on_small_grid() {
    let mut forest = Forest::new(42, 4, 4);
    for _ in 0..12 {
        forest.update();
    }
    assert_eq!(forest.months_elapsed(), 12);
    // Both yearly counters were just reset.
    assert_eq!(forest.yearly_lumber(), 0);
    assert_eq!(forest.yearly_mauls(), 0);
}

#[test]
fn test_initial_population_ten_by_ten() {
    let forest = Forest::new(9, 10, 10);
    assert_eq!(forest.count_bears(), 2);
    assert_eq!(forest.count_jacks(), 10);
    assert_eq!(forest.count_trees(), 50);
}

#[test]
fn test_single_cell_grid_is_stable() {
    // One cell takes the one bear, the one jack and the one tree; with no
    // neighbours, wandering and spawning are permanent no-ops and only the
    // tree's age moves.
    let mut forest = Forest::new(7, 1, 1);
    assert_eq!(forest.map().len(), 1);
    assert_eq!(decode(forest.map()[0]), (1, 1, 1));
    for _ in 0..25 {
        forest.update();
    }
    assert_eq!(forest.months_elapsed(), 25);
    assert_eq!(decode(forest.map()[0]), (1, 1, 26));
    assert_eq!(forest.yearly_lumber(), 0);
    assert_eq!(forest.yearly_mauls(), 0);
}

#[test]
fn test_counters_reset_every_twelfth_month_and_grow_between() {
    let mut forest = Forest::new(314159, 8, 6);
    let mut lumber_before = 0;
    let mut mauls_before = 0;
    for month in 1..=48u32 {
        forest.update();
        assert_eq!(forest.months_elapsed(), month);
        if month % 12 == 0 {
            assert_eq!(forest.yearly_lumber(), 0);
            assert_eq!(forest.yearly_mauls(), 0);
            lumber_before = 0;
            mauls_before = 0;
        } else {
            assert!(forest.yearly_lumber() >= lumber_before);
            assert!(forest.yearly_mauls() >= mauls_before);
            lumber_before = forest.yearly_lumber();
            mauls_before = forest.yearly_mauls();
        }
    }
}

#[test]
fn test_fields_stay_isolated() {
    // After years of placements and removals no bitfield has bled into its
    // neighbour: jack levels stay within the cap and the bear field is a
    // flag.
    let mut forest = Forest::new(99, 7, 7);
    for _ in 0..60 {
        forest.update();
    }
    for i in 0..forest.map().len() {
        let (bear, jack, age) = decode(forest.map()[i]);
        assert!(bear <= 1);
        assert!(jack <= 5);
        assert!(age <= 255);
    }
}

#[test]
fn test_tree_aging_saturates() {
    // On a single cell the tree ages one month per update and stops at 255.
    let mut forest = Forest::new(7, 1, 1);
    for _ in 0..300 {
        forest.update();
    }
    let (_, _, age) = decode(forest.map()[0]);
    assert_eq!(age, 255);
}

#[test]
fn test_config_carries_the_run_parameters() {
    let config = ForestConfig::new(11, 12, 8, 4800);
    assert_eq!(config.seed, 11);
    assert_eq!(config.width, 12);
    assert_eq!(config.height, 8);
    assert_eq!(config.months, 4800);
    let forest = Forest::new(config.seed, config.width, config.height);
    assert_eq!(forest.map().len(), 96);
    assert_eq!(forest.months_elapsed(), 0);
}

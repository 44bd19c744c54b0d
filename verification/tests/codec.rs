use forest::cell::{
    decode, get_harvest_amount, get_jack_maul_chance, get_sapling_spawn_chance, get_tree_kind,
    get_tree_harvest_chance, place_entity, remove_entity, BEAR_SHIFT, JACK_REMOVE_MASK, JACK_SHIFT,
    TREE_REMOVE_MASK, TREE_SHIFT,
};
use forest::tree::{Tree, TreeKind};

#[test]
fn test_decode_splits_the_three_fields() {
    assert_eq!(decode(0x0000), (0, 0, 0));
    assert_eq!(decode(0x1000), (1, 0, 0));
    assert_eq!(decode(0x0500), (0, 5, 0));
    assert_eq!(decode(0x00FF), (0, 0, 255));
    assert_eq!(decode(0x1234), (1, 2, 0x34));
}

#[test]
fn test_place_and_remove_keep_other_fields() {
    let cell = place_entity(0, BEAR_SHIFT);
    assert_eq!(decode(cell), (1, 0, 0));
    let cell = place_entity(cell, JACK_SHIFT);
    assert_eq!(decode(cell), (1, 1, 0));
    let cell = place_entity(cell, TREE_SHIFT);
    assert_eq!(decode(cell), (1, 1, 1));

    let cell = remove_entity(cell, JACK_REMOVE_MASK);
    assert_eq!(decode(cell), (1, 0, 1));
    let cell = remove_entity(cell, TREE_REMOVE_MASK);
    assert_eq!(decode(cell), (1, 0, 0));
}

#[test]
fn test_tree_kind_age_boundaries() {
    assert_eq!(get_tree_kind(0), TreeKind::Empty);
    assert_eq!(get_tree_kind(1), TreeKind::Sapling);
    assert_eq!(get_tree_kind(11), TreeKind::Sapling);
    assert_eq!(get_tree_kind(12), TreeKind::Mature);
    assert_eq!(get_tree_kind(119), TreeKind::Mature);
    assert_eq!(get_tree_kind(120), TreeKind::Elder);
    assert_eq!(get_tree_kind(255), TreeKind::Elder);
    // The jack and bear fields do not disturb the classification.
    assert_eq!(get_tree_kind(0x1500 + 12), TreeKind::Mature);
}

#[test]
fn test_spawn_chances() {
    assert_eq!(get_sapling_spawn_chance(0), 0);
    assert_eq!(get_sapling_spawn_chance(5), 0);
    assert_eq!(get_sapling_spawn_chance(12), 10);
    assert_eq!(get_sapling_spawn_chance(120), 20);
}

#[test]
fn test_harvest_chances() {
    assert_eq!(get_tree_harvest_chance(0), 0);
    assert_eq!(get_tree_harvest_chance(5), 99);
    assert_eq!(get_tree_harvest_chance(12), 75);
    assert_eq!(get_tree_harvest_chance(120), 66);
}

#[test]
fn test_harvest_amounts() {
    assert_eq!(get_harvest_amount(0), 0);
    assert_eq!(get_harvest_amount(5), 0);
    assert_eq!(get_harvest_amount(12), 1);
    assert_eq!(get_harvest_amount(120), 2);
}

#[test]
fn test_maul_chance_by_level() {
    // protection = level * 10 + max(0, 10 - level^2), capped at 75;
    // chance = 100 - protection.
    assert_eq!(get_jack_maul_chance(0 << 8), 90);
    assert_eq!(get_jack_maul_chance(1 << 8), 81);
    assert_eq!(get_jack_maul_chance(2 << 8), 74);
    assert_eq!(get_jack_maul_chance(3 << 8), 69);
    assert_eq!(get_jack_maul_chance(4 << 8), 60);
    assert_eq!(get_jack_maul_chance(5 << 8), 50);
}

#[test]
fn test_maul_chance_level_five_is_fifty() {
    // protection = min(75, 50 + max(0, 10 - 25)) = 50, so the maul chance
    // saturates at exactly fifty percent.
    let cell_with_level_five_jack = 0x0500;
    assert_eq!(get_jack_maul_chance(cell_with_level_five_jack), 50);
}

#[test]
fn test_mature_tree_harvest() {
    // A jack (level 1 after its move) stands on a mature tree of age 12 and
    // the roll comes up 0, under the mature harvest chance of 75: the tree
    // field clears, the yield is one lumber, and the jack rises one level.
    let cell = 0x0100 + 12;
    let roll = 0;
    assert!(roll < get_tree_harvest_chance(cell));
    let amount = get_harvest_amount(cell);
    assert_eq!(amount, 1);
    let cleared = remove_entity(cell, TREE_REMOVE_MASK);
    assert_eq!(decode(cleared), (0, 1, 0));
    // Raising the level by the one harvested lumber caps well below five.
    let levelled = place_entity(cleared, JACK_SHIFT);
    assert_eq!(decode(levelled), (0, 2, 0));
}

#[test]
fn test_tree_grow_saturates() {
    let mut tree = Tree::new(0, 254);
    tree.grow();
    assert_eq!(tree.age, 255);
    tree.grow();
    assert_eq!(tree.age, 255);
}

#[test]
fn test_tree_value_rules() {
    let mut tree = Tree::new(3, 0);
    assert_eq!(tree.get_tree_kind(), TreeKind::Sapling);
    assert_eq!(tree.get_spawn_chance(), 0);
    assert_eq!(tree.get_harvest_amount(), 0);
    for _ in 0..12 {
        tree.grow();
    }
    assert_eq!(tree.age, 12);
    assert_eq!(tree.get_tree_kind(), TreeKind::Mature);
    assert_eq!(tree.get_spawn_chance(), 10);
    assert_eq!(tree.get_harvest_amount(), 1);
    for _ in 0..108 {
        tree.grow();
    }
    assert_eq!(tree.get_tree_kind(), TreeKind::Elder);
    assert_eq!(tree.get_spawn_chance(), 20);
    assert_eq!(tree.get_harvest_amount(), 2);
    assert_eq!(tree.position, 3);
}

use forest::grid::{GridUtils, Position};
use forest::random::Random;

#[test]
fn test_grid_get_adjacent_cells() {
    let width = 5;
    let height = 3;

    let cells = GridUtils::get_adjacent_positions(0, width, height);
    assert!(
        cells
            == vec![
                Position { x: 1, y: 0 },
                Position { x: 0, y: 1 },
                Position { x: 1, y: 1 },
            ]
    );

    let cells = GridUtils::get_adjacent_positions(7, width, height);
    assert!(
        cells
            == vec![
                Position { x: 1, y: 0 },
                Position { x: 2, y: 0 },
                Position { x: 3, y: 0 },
                Position { x: 1, y: 1 },
                Position { x: 3, y: 1 },
                Position { x: 1, y: 2 },
                Position { x: 2, y: 2 },
                Position { x: 3, y: 2 },
            ]
    );

    let cells = GridUtils::get_adjacent_positions(14, width, height);
    assert!(
        cells
            == vec![
                Position { x: 3, y: 1 },
                Position { x: 4, y: 1 },
                Position { x: 3, y: 2 },
            ]
    );
}

#[test]
fn test_grid_to_coords() {
    let width = 5;

    let cell = GridUtils::to_coords(0, width);
    assert!(cell.x == 0);
    assert!(cell.y == 0);

    let cell = GridUtils::to_coords(14, width);
    assert!(cell.x == 4);
    assert!(cell.y == 2);

    let cell = GridUtils::to_coords(4, width);
    assert!(cell.x == 4);
    assert!(cell.y == 0);

    let cell = GridUtils::to_coords(11, width);
    assert!(cell.x == 1);
    assert!(cell.y == 2);
}

#[test]
fn test_grid_to_index() {
    let width = 5;

    let cell = GridUtils::to_index(0, 0, width);
    assert!(cell == 0);

    let cell = GridUtils::to_index(4, 2, width);
    assert!(cell == 14);

    let cell = GridUtils::to_index(4, 0, width);
    assert!(cell == 4);

    let cell = GridUtils::to_index(1, 2, width);
    assert!(cell == 11);
}

#[test]
fn test_adjacency_single_cell_is_empty() {
    let cells = GridUtils::get_adjacent_positions(0, 1, 1);
    assert!(cells.is_empty());
}

#[test]
fn test_open_space_skips_occupied_positions() {
    // Seed 7 first draws 7 % 4 == 3, which is free at once.
    let mut rng = Random::new(7);
    let occupied = vec![0, 1, 2];
    let space = GridUtils::get_open_space(&mut rng, 4, &occupied);
    assert_eq!(space, Some(3));
    // Exactly one draw was consumed.
    assert_eq!(rng.next(), 8658654068799);
}

#[test]
fn test_open_space_full_grid_is_none() {
    let mut rng = Random::new(7);
    let occupied = vec![3, 1, 0, 2];
    let space = GridUtils::get_open_space(&mut rng, 4, &occupied);
    assert_eq!(space, None);
    // No draw was consumed.
    assert_eq!(rng.next(), 7);
}

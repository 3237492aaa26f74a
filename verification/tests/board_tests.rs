use conway::board::{BoardError, Coordinates, Grid, TileState};

fn alive_grid(width: i32, height: i32, alive: &[(i32, i32)]) -> Grid {
    let mut grid = Grid::new(width, height);
    for &(x, y) in alive {
        grid.set(Coordinates::new(x, y), TileState::Alive).unwrap();
    }
    grid
}

#[test]
fn coordinates_new_holds_fields() {
    let c = Coordinates::new(7, -3);
    assert_eq!(c.x, 7);
    assert_eq!(c.y, -3);
}

#[test]
fn get_neighbors_returns_the_eight_offsets() {
    let c = Coordinates::new(5, 5);
    let ns = c.get_neighbors();
    let expected = vec![
        Coordinates::new(4, 4),
        Coordinates::new(5, 4),
        Coordinates::new(6, 4),
        Coordinates::new(4, 5),
        Coordinates::new(6, 5),
        Coordinates::new(4, 6),
        Coordinates::new(5, 6),
        Coordinates::new(6, 6),
    ];
    assert_eq!(ns, expected);
}

#[test]
fn neighbors_of_center_has_eight() {
    let grid = Grid::new(3, 3);
    let ns = grid.neighbors_of(&Coordinates::new(1, 1));
    assert_eq!(ns.len(), 8);
}

#[test]
fn neighbors_of_corner_clips_to_three() {
    let grid = Grid::new(3, 3);
    let ns = grid.neighbors_of(&Coordinates::new(0, 0));
    assert_eq!(ns.len(), 3);
    assert!(ns.contains(&Coordinates::new(1, 0)));
    assert!(ns.contains(&Coordinates::new(0, 1)));
    assert!(ns.contains(&Coordinates::new(1, 1)));
}

#[test]
fn neighbors_are_distinct_in_bounds_and_never_self() {
    let grid = Grid::new(4, 3);
    for y in 0..3 {
        for x in 0..4 {
            let c = Coordinates::new(x, y);
            let ns = grid.neighbors_of(&c);
            assert!(ns.len() <= 8);
            for (i, n) in ns.iter().enumerate() {
                assert!(n.x >= 0 && n.x < 4 && n.y >= 0 && n.y < 3);
                assert_ne!(*n, c);
                for m in ns.iter().skip(i + 1) {
                    assert_ne!(*n, *m);
                }
            }
        }
    }
}

#[test]
fn new_grid_is_all_dead() {
    let grid = Grid::new(5, 4);
    for y in 0..4 {
        for x in 0..5 {
            assert_eq!(grid.get(&Coordinates::new(x, y)), Ok(TileState::Dead));
        }
    }
}

#[test]
fn set_then_get_round_trips() {
    let mut grid = Grid::new(3, 3);
    assert_eq!(grid.set(Coordinates::new(2, 1), TileState::Alive), Ok(()));
    assert_eq!(grid.get(&Coordinates::new(2, 1)), Ok(TileState::Alive));
    assert_eq!(grid.get(&Coordinates::new(1, 2)), Ok(TileState::Dead));
    assert_eq!(grid.set(Coordinates::new(2, 1), TileState::Dead), Ok(()));
    assert_eq!(grid.get(&Coordinates::new(2, 1)), Ok(TileState::Dead));
}

#[test]
fn set_out_of_bounds_fails_and_changes_nothing() {
    let mut grid = alive_grid(2, 2, &[(0, 0)]);
    assert_eq!(
        grid.set(Coordinates::new(2, 0), TileState::Alive),
        Err(BoardError::OutOfBounds)
    );
    assert_eq!(
        grid.set(Coordinates::new(0, -1), TileState::Alive),
        Err(BoardError::OutOfBounds)
    );
    assert_eq!(grid.get(&Coordinates::new(0, 0)), Ok(TileState::Alive));
    assert_eq!(grid.get(&Coordinates::new(1, 0)), Ok(TileState::Dead));
}

#[test]
fn try_new_rejects_invalid_dimensions() {
    assert!(matches!(Grid::try_new(0, 5), Err(BoardError::InvalidDimensions)));
    assert!(matches!(Grid::try_new(5, 0), Err(BoardError::InvalidDimensions)));
    assert!(matches!(Grid::try_new(-1, 3), Err(BoardError::InvalidDimensions)));
    assert!(matches!(Grid::try_new(3, -2), Err(BoardError::InvalidDimensions)));
    assert!(matches!(
        Grid::try_new(i32::MAX, 2),
        Err(BoardError::InvalidDimensions)
    ));
}

#[test]
fn try_new_accepts_positive_dimensions() {
    let grid = Grid::try_new(3, 2).unwrap();
    assert_eq!(grid.width, 3);
    assert_eq!(grid.height, 2);
    assert_eq!(grid.get(&Coordinates::new(2, 1)), Ok(TileState::Dead));
}

#[test]
fn get_out_of_bounds_on_every_side() {
    for (w, h) in [(1, 1), (3, 5), (7, 2)] {
        let grid = Grid::new(w, h);
        assert_eq!(
            grid.get(&Coordinates::new(w, 0)),
            Err(BoardError::OutOfBounds)
        );
        assert_eq!(
            grid.get(&Coordinates::new(-1, 0)),
            Err(BoardError::OutOfBounds)
        );
        assert_eq!(
            grid.get(&Coordinates::new(0, h)),
            Err(BoardError::OutOfBounds)
        );
        assert_eq!(
            grid.get(&Coordinates::new(0, -1)),
            Err(BoardError::OutOfBounds)
        );
    }
}

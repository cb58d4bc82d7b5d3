use sprite_editor::color::Color;
use sprite_editor::grid::{Grid, OutOfBounds};

const RED: Color = Color { r: 255, g: 0, b: 0, a: 255 };
const GREEN: Color = Color { r: 0, g: 255, b: 0, a: 255 };

#[test]
fn created_grid_is_all_background() {
    for (width, height) in [(1, 1), (1, 5), (7, 1), (8, 8), (3, 11)] {
        let grid = Grid::blank(width, height);
        assert_eq!(grid.width(), width);
        assert_eq!(grid.height(), height);
        for y in 0..height {
            for x in 0..width {
                assert_eq!(grid.get(x, y), Ok(Color::background()));
            }
        }
    }
}

#[test]
fn created_grid_is_all_fill() {
    let grid = Grid::create(4, 2, RED);
    for y in 0..2 {
        for x in 0..4 {
            assert_eq!(grid.get(x, y), Ok(RED));
        }
    }
}

#[test]
fn background_is_opaque_black() {
    assert_eq!(Color::background(), Color { r: 0, g: 0, b: 0, a: 255 });
}

#[test]
fn get_outside_the_grid_is_out_of_bounds() {
    let grid = Grid::blank(3, 2);
    assert_eq!(grid.get(3, 0), Err(OutOfBounds));
    assert_eq!(grid.get(0, 2), Err(OutOfBounds));
    assert_eq!(grid.get(usize::MAX, usize::MAX), Err(OutOfBounds));
    assert_eq!(grid.get(2, 1), Ok(Color::background()));
}

#[test]
fn set_changes_one_cell() {
    let mut grid = Grid::blank(3, 2);
    assert_eq!(grid.set(2, 1, RED), Ok(()));
    for y in 0..2 {
        for x in 0..3 {
            let expected = if (x, y) == (2, 1) { RED } else { Color::background() };
            assert_eq!(grid.get(x, y), Ok(expected));
        }
    }
}

#[test]
fn set_outside_the_grid_changes_nothing() {
    let mut grid = Grid::blank(3, 2);
    assert_eq!(grid.set(3, 1, RED), Err(OutOfBounds));
    assert_eq!(grid.set(0, 2, RED), Err(OutOfBounds));
    assert_eq!(grid, Grid::blank(3, 2));
    assert_eq!(grid.width(), 3);
    assert_eq!(grid.height(), 2);
}

#[test]
fn clone_is_a_deep_copy() {
    let mut grid = Grid::blank(2, 2);
    grid.set(0, 0, RED).unwrap();
    let snapshot = grid.clone();
    assert_eq!(snapshot, grid);
    grid.set(1, 1, GREEN).unwrap();
    assert_eq!(snapshot.get(1, 1), Ok(Color::background()));
    assert_eq!(snapshot.get(0, 0), Ok(RED));
    assert_ne!(snapshot, grid);
}

#[test]
fn from_rows_wants_a_rectangle() {
    let grid = Grid::from_rows(vec![vec![RED, GREEN], vec![GREEN, RED]]).unwrap();
    assert_eq!(grid.get(1, 0), Ok(GREEN));
    assert_eq!(grid.get(0, 1), Ok(GREEN));
    assert_eq!(grid.to_rows(), vec![vec![RED, GREEN], vec![GREEN, RED]]);
    assert_eq!(Grid::from_rows(vec![]), None);
    assert_eq!(Grid::from_rows(vec![vec![]]), None);
    assert_eq!(Grid::from_rows(vec![vec![RED], vec![RED, RED]]), None);
    assert_eq!(Grid::from_rows(vec![vec![RED, RED], vec![]]), None);
}

use sprite_editor::codec::{Format, FormatError, IoError};
use sprite_editor::color::Color;
use sprite_editor::editor::{Editor, ToolState};
use sprite_editor::geometry::{CellGeometry, Layout, Pointer};
use sprite_editor::grid::Grid;
use sprite_editor::paint::{Button, PaintController};

const RED: Color = Color { r: 255, g: 0, b: 0, a: 255 };
const ACCENT: Color = Color { r: 199, g: 122, b: 255, a: 255 };
const PRESS: Button = Button { pressed: true, held: true };

fn painter() -> PaintController {
    PaintController::new(CellGeometry {
        origin_x: 0,
        origin_y: 0,
        cell_size: 10,
        gap: 1,
        layout: Layout::Packed,
    })
}

#[test]
fn session_begins_with_the_grid_and_the_accent_color() {
    let mut grid = Grid::blank(3, 2);
    grid.set(1, 1, RED).unwrap();
    let editor = Editor::new(grid.clone());
    assert_eq!(editor.grid(), &grid);
    assert_eq!(editor.initial(), &grid);
    assert_eq!(editor.tool(), ACCENT);
    assert_eq!(ToolState::new().color, ACCENT);
}

#[test]
fn select_changes_the_tool_color_only() {
    let mut editor = Editor::new(Grid::blank(3, 2));
    editor.select(RED);
    assert_eq!(editor.tool(), RED);
    assert_eq!(editor.grid(), &Grid::blank(3, 2));
    let mut tool = ToolState::new();
    tool.select(RED);
    assert_eq!(tool, ToolState { color: RED });
}

#[test]
fn paint_uses_the_selected_color() {
    let mut editor = Editor::new(Grid::blank(3, 2));
    editor.paint(&painter(), Pointer { x: 15, y: 5 }, PRESS);
    assert_eq!(editor.grid().get(1, 0), Ok(ACCENT));
    editor.select(RED);
    editor.paint(&painter(), Pointer { x: 25, y: 15 }, PRESS);
    assert_eq!(editor.grid().get(2, 1), Ok(RED));
    assert_eq!(editor.initial(), &Grid::blank(3, 2));
}

#[test]
fn reset_restores_the_initial_grid() {
    let mut initial = Grid::blank(3, 2);
    initial.set(0, 0, RED).unwrap();
    let mut editor = Editor::new(initial.clone());
    editor.paint(&painter(), Pointer { x: 15, y: 5 }, PRESS);
    editor.paint(&painter(), Pointer { x: 5, y: 5 }, PRESS);
    assert_ne!(editor.grid(), &initial);
    editor.reset();
    assert_eq!(editor.grid(), &initial);
    assert_eq!(editor.initial(), &initial);
    editor.paint(&painter(), Pointer { x: 15, y: 5 }, PRESS);
    editor.reset();
    assert_eq!(editor.grid(), &initial);
}

#[test]
fn clear_blanks_the_grid_and_keeps_its_size() {
    let mut editor = Editor::new(Grid::create(3, 2, RED));
    editor.clear();
    assert_eq!(editor.grid(), &Grid::blank(3, 2));
    assert_eq!(editor.initial(), &Grid::create(3, 2, RED));
    editor.reset();
    assert_eq!(editor.grid(), &Grid::create(3, 2, RED));
}

#[test]
fn session_on_a_missing_file_begins_blank_without_a_failure() {
    let (editor, failure) = Editor::open(Format::BinaryImage, Err(IoError));
    assert_eq!(editor.grid(), &Grid::blank(8, 8));
    assert_eq!(editor.initial(), &Grid::blank(8, 8));
    assert_eq!(failure, None);
}

#[test]
fn session_on_a_malformed_file_begins_blank_with_a_failure() {
    let (editor, failure) = Editor::open(Format::TextRgb, Ok(b"P3\n1 1\n255\n\n1 2 \n"));
    assert_eq!(editor.grid(), &Grid::blank(8, 8));
    assert_eq!(failure, Some(FormatError));
}

#[test]
fn session_on_a_file_begins_with_its_grid() {
    let (editor, failure) = Editor::open(Format::TextRgb, Ok(b"P3\n1 1\n255\n\n255 0 0 \n"));
    assert_eq!(editor.grid(), &Grid::create(1, 1, RED));
    assert_eq!(editor.initial(), &Grid::create(1, 1, RED));
    assert_eq!(failure, None);
}

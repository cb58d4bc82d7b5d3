//! The paint rule: what a press of the pointer's button does to the cell
//! under the pointer.

use vstd::prelude::*;
use crate::color::Color;
use crate::geometry::{CellGeometry, Pointer};
use crate::grid::{rectangular, with_cell, Grid};

verus! {

/// Which cells a press erases.
#[derive(Clone, Copy, Debug, PartialEq, Eq, Structural)]
pub enum PaintPolicy {
    /// A press erases a cell that has the tool's colour, and gives every other
    /// cell the tool's colour.
    ToggleOnSameColor,
    /// A press erases a cell that is painted at all, and gives an unpainted
    /// cell the tool's colour.
    ToggleOnAnyNonBackground,
}

/// Which state of the button counts as a press.
#[derive(Clone, Copy, Debug, PartialEq, Eq, Structural)]
pub enum PressPolicy {
    /// Only the tick on which the button goes down: a held button paints once.
    EdgeTriggered,
    /// Every tick on which the button is down: a held button paints on each.
    LevelTriggered,
}

/// The state of the pointer's button on one tick.
#[derive(Clone, Copy, Debug, PartialEq, Eq, Structural)]
pub struct Button {
    /// The button went down on this tick.
    pub pressed: bool,
    /// The button is down.
    pub held: bool,
}

/// The colour of a cell of colour `cell` after a press with the tool colour
/// `tool`.
pub open spec fn toggled(policy: PaintPolicy, cell: Color, tool: Color) -> Color {
    match policy {
        PaintPolicy::ToggleOnSameColor => if cell == tool {
            Color::background()
        } else {
            tool
        },
        PaintPolicy::ToggleOnAnyNonBackground => if cell != Color::background() {
            Color::background()
        } else {
            tool
        },
    }
}

/// Whether the button's state counts as a press.
pub open spec fn fires(policy: PressPolicy, button: Button) -> bool {
    match policy {
        PressPolicy::EdgeTriggered => button.pressed,
        PressPolicy::LevelTriggered => button.held,
    }
}

impl PaintPolicy {
    /// The colour of a cell of colour `cell` after a press with the tool
    /// colour `tool`.
    pub fn toggle(self, cell: Color, tool: Color) -> (after: Color)
        ensures
            after == toggled(self, cell, tool),
    {
        match self {
            PaintPolicy::ToggleOnSameColor => if cell == tool {
                Color::background()
            } else {
                tool
            },
            PaintPolicy::ToggleOnAnyNonBackground => if cell != Color::background() {
                Color::background()
            } else {
                tool
            },
        }
    }
}

impl PressPolicy {
    /// Whether the button's state counts as a press.
    pub fn clicked(self, button: Button) -> (press: bool)
        ensures
            press == fires(self, button),
    {
        match self {
            PressPolicy::EdgeTriggered => button.pressed,
            PressPolicy::LevelTriggered => button.held,
        }
    }
}

/// Paints a grid: the layout that tells which cell the pointer is over, and
/// the two policies.
#[derive(Clone, Copy, Debug, PartialEq, Eq, Structural)]
pub struct PaintController {
    pub geometry: CellGeometry,
    pub paint: PaintPolicy,
    pub press: PressPolicy,
}

impl PaintController {
    /// The cells after one tick. Without a press, or with the pointer over no
    /// cell, they are the cells before; else the one cell under the pointer is
    /// toggled and no other changes.
    pub open spec fn painted(
        self,
        cells: Seq<Seq<Color>>,
        pointer: Pointer,
        clicked: bool,
        color: Color,
    ) -> Seq<Seq<Color>> {
        if clicked {
            match self.geometry.cell_of(pointer, cells[0].len() as int, cells.len() as int) {
                Some((x, y)) => with_cell(cells, x, y, toggled(self.paint, cells[y][x], color)),
                None => cells,
            }
        } else {
            cells
        }
    }

    /// A controller for the given layout that erases on the same colour and
    /// paints once for each press.
    pub fn new(geometry: CellGeometry) -> (c: PaintController)
        ensures
            c == (PaintController {
                geometry,
                paint: PaintPolicy::ToggleOnSameColor,
                press: PressPolicy::EdgeTriggered,
            }),
    {
        PaintController {
            geometry,
            paint: PaintPolicy::ToggleOnSameColor,
            press: PressPolicy::EdgeTriggered,
        }
    }

    /// One tick of painting: where `clicked` holds and the pointer is over a
    /// cell, toggles that cell with the colour `color`.
    pub fn apply(&self, grid: &mut Grid, pointer: Pointer, clicked: bool, color: Color)
        ensures
            old(grid).wf(),
            final(grid).wf(),
            final(grid)@ == self.painted(old(grid)@, pointer, clicked, color),
    {
        let width: usize = grid.width();
        let height: usize = grid.height();
        if !clicked {
            return ;
        }
        match self.geometry.cell_at(pointer, width, height) {
            Some((x, y)) => {
                proof {
                    crate::geometry::lemma_cell_of_in_grid(
                        self.geometry,
                        pointer,
                        width as int,
                        height as int,
                    );
                }
                let cell: Color = grid.get(x, y).unwrap();
                let after: Color = self.paint.toggle(cell, color);
                let _ = grid.set(x, y, after);
            },
            None => {},
        }
    }

    /// One tick of painting, from the state of the button: a press is what
    /// the press policy takes for one.
    pub fn tick(&self, grid: &mut Grid, pointer: Pointer, button: Button, color: Color)
        ensures
            old(grid).wf(),
            final(grid).wf(),
            final(grid)@ == self.painted(old(grid)@, pointer, fires(self.press, button), color),
    {
        self.apply(grid, pointer, self.press.clicked(button), color);
    }
}

/// The colour in which a cell is shown: the tool's colour at four fifths of
/// full opacity for the cell under the pointer, the cell's own colour for
/// every other.
pub open spec fn shown(cell: Color, hovered: bool, tool: Color) -> Color {
    if hovered {
        Color { r: tool.r, g: tool.g, b: tool.b, a: 204 }
    } else {
        cell
    }
}

/// The colour in which a cell is shown.
pub fn display_color(cell: Color, hovered: bool, tool: Color) -> (c: Color)
    ensures
        c == shown(cell, hovered, tool),
{
    if hovered {
        Color { r: tool.r, g: tool.g, b: tool.b, a: 204 }
    } else {
        cell
    }
}

/// Two presses with one colour leave a cell unpainted exactly when the first of
/// them painted it, or the colour is the background's. Under
/// `ToggleOnSameColor` the first press paints every cell that has not the
/// tool's colour; under `ToggleOnAnyNonBackground`, every unpainted cell.
pub proof fn lemma_toggle_twice(policy: PaintPolicy, cell: Color, tool: Color)
    ensures
        toggled(policy, toggled(policy, cell, tool), tool) == Color::background() <==> (
        tool == Color::background() || match policy {
            PaintPolicy::ToggleOnSameColor => cell != tool,
            PaintPolicy::ToggleOnAnyNonBackground => cell == Color::background(),
        }),
{
}

/// A press with one colour and then a press with another leave a cell with
/// the second colour, and nothing of the first, exactly when the second press
/// does not erase what the first painted. Under `ToggleOnSameColor` that is so
/// whenever the two colours differ.
pub proof fn lemma_second_color_wins(policy: PaintPolicy, cell: Color, first: Color, second: Color)
    ensures
        toggled(policy, toggled(policy, cell, first), second) == second <==> (
        second == Color::background() || match policy {
            PaintPolicy::ToggleOnSameColor => first != second || cell == first,
            PaintPolicy::ToggleOnAnyNonBackground => cell != Color::background() || first
                == Color::background(),
        }),
{
}

/// Painting keeps the grid's shape.
pub proof fn lemma_painted_rectangular(
    c: PaintController,
    cells: Seq<Seq<Color>>,
    pointer: Pointer,
    clicked: bool,
    color: Color,
)
    requires
        rectangular(cells),
    ensures
        rectangular(c.painted(cells, pointer, clicked, color)),
        c.painted(cells, pointer, clicked, color).len() == cells.len(),
        c.painted(cells, pointer, clicked, color)[0].len() == cells[0].len(),
{
    crate::geometry::lemma_cell_of_in_grid(
        c.geometry,
        pointer,
        cells[0].len() as int,
        cells.len() as int,
    );
}

/// Toggling the same cell twice with the same colour: under
/// `ToggleOnSameColor` two presses leave the cell under the pointer unpainted
/// and every other cell as it was. Left out is the cell that has the tool's
/// colour to begin with, which the first press erases and the second paints
/// again.
pub proof fn lemma_paint_twice_erases(
    c: PaintController,
    cells: Seq<Seq<Color>>,
    pointer: Pointer,
    color: Color,
    x: int,
    y: int,
)
    requires
        rectangular(cells),
        c.paint == PaintPolicy::ToggleOnSameColor,
        c.geometry.cell_of(pointer, cells[0].len() as int, cells.len() as int) == Some((x, y)),
        cells[y][x] != color || color == Color::background(),
    ensures
        c.painted(c.painted(cells, pointer, true, color), pointer, true, color) == with_cell(
            cells,
            x,
            y,
            Color::background(),
        ),
{
    crate::geometry::lemma_cell_of_in_grid(
        c.geometry,
        pointer,
        cells[0].len() as int,
        cells.len() as int,
    );
    let once = c.painted(cells, pointer, true, color);
    lemma_painted_rectangular(c, cells, pointer, true, color);
    assert(c.painted(once, pointer, true, color) =~~= with_cell(
        cells,
        x,
        y,
        Color::background(),
    ));
}

/// Painting a cell with one colour and then with another: under
/// `ToggleOnSameColor` the cell under the pointer has the second colour, and
/// every other cell is as it was. Left out is the press with one colour twice
/// on a cell of another, where the second press erases what the first
/// painted.
pub proof fn lemma_paint_over(
    c: PaintController,
    cells: Seq<Seq<Color>>,
    pointer: Pointer,
    first: Color,
    second: Color,
    x: int,
    y: int,
)
    requires
        rectangular(cells),
        c.paint == PaintPolicy::ToggleOnSameColor,
        c.geometry.cell_of(pointer, cells[0].len() as int, cells.len() as int) == Some((x, y)),
        first != second || second == Color::background() || cells[y][x] == first,
    ensures
        c.painted(c.painted(cells, pointer, true, first), pointer, true, second) == with_cell(
            cells,
            x,
            y,
            second,
        ),
{
    crate::geometry::lemma_cell_of_in_grid(
        c.geometry,
        pointer,
        cells[0].len() as int,
        cells.len() as int,
    );
    let once = c.painted(cells, pointer, true, first);
    lemma_painted_rectangular(c, cells, pointer, true, first);
    assert(c.painted(once, pointer, true, second) =~~= with_cell(cells, x, y, second));
}

} // verus!

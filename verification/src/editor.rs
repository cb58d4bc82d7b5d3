//! An editing session: the grid being painted, the grid as it was when the
//! session began, and the selected colour.

use vstd::prelude::*;
use crate::codec::{default_cells, load, recover, Format, FormatError, IoError};
use crate::color::Color;
use crate::geometry::Pointer;
use crate::grid::{filled, Grid};
use crate::paint::{fires, Button, PaintController};

verus! {

/// The colour that a session begins with: a light purple.
pub open spec fn accent() -> Color {
    Color { r: 199, g: 122, b: 255, a: 255 }
}

/// The state of the tool: the colour that a press paints with.
#[derive(Clone, Copy, Debug, PartialEq, Eq, Structural)]
pub struct ToolState {
    pub color: Color,
}

impl ToolState {
    /// The tool as a session begins with it.
    pub fn new() -> (t: ToolState)
        ensures
            t.color == accent(),
    {
        ToolState { color: Color { r: 199, g: 122, b: 255, a: 255 } }
    }

    /// Makes `color` the selected colour.
    pub fn select(&mut self, color: Color)
        ensures
            final(self).color == color,
    {
        self.color = color;
    }
}

/// An editing session. The grid as it was when the session began is kept to
/// the end of the session, and nothing changes it.
#[derive(Debug, PartialEq, Eq)]
pub struct Editor {
    grid: Grid,
    initial: Grid,
    tool: ToolState,
}

impl Editor {
    /// The cells of the grid being painted.
    pub closed spec fn cells(&self) -> Seq<Seq<Color>> {
        self.grid@
    }

    /// The cells of the grid as it was when the session began.
    pub closed spec fn snapshot(&self) -> Seq<Seq<Color>> {
        self.initial@
    }

    /// The selected colour.
    pub closed spec fn color(&self) -> Color {
        self.tool.color
    }

    /// A session that begins with the grid `grid`.
    pub fn new(grid: Grid) -> (e: Editor)
        ensures
            e.cells() == grid@,
            e.snapshot() == grid@,
            e.color() == accent(),
    {
        let initial = grid.clone();
        Editor { grid, initial, tool: ToolState::new() }
    }

    /// A session on a file of the format `format`, and the failure to report.
    /// `source` holds the file's contents, or the failure to read them. The
    /// session begins with the file's grid; where the file is not there, or
    /// its contents are no file of the format, with the default grid. Only the
    /// second is a failure.
    pub fn open(format: Format, source: Result<&[u8], IoError>) -> (r: (
        Editor,
        Option<FormatError>,
    ))
        ensures
            r.0.snapshot() == r.0.cells(),
            r.0.color() == accent(),
            match source {
                Err(_) => r.0.cells() == default_cells() && r.1 is None,
                Ok(contents) => match format.cells_of(contents@) {
                    Some(cells) => r.0.cells() == cells && r.1 is None,
                    None => r.0.cells() == default_cells() && r.1 is Some,
                },
            },
    {
        let (grid, failure) = recover(load(format, source));
        (Editor::new(grid), failure)
    }

    /// The grid being painted.
    pub fn grid(&self) -> (g: &Grid)
        ensures
            g@ == self.cells(),
    {
        &self.grid
    }

    /// The grid as it was when the session began.
    pub fn initial(&self) -> (g: &Grid)
        ensures
            g@ == self.snapshot(),
    {
        &self.initial
    }

    /// The selected colour.
    pub fn tool(&self) -> (c: Color)
        ensures
            c == self.color(),
    {
        self.tool.color
    }

    /// Selects the colour that the next presses paint with.
    pub fn select(&mut self, color: Color)
        ensures
            final(self).color() == color,
            final(self).cells() == old(self).cells(),
            final(self).snapshot() == old(self).snapshot(),
    {
        self.tool.select(color);
    }

    /// Puts the grid back as it was when the session began.
    pub fn reset(&mut self)
        ensures
            final(self).cells() == old(self).snapshot(),
            final(self).snapshot() == old(self).snapshot(),
            final(self).color() == old(self).color(),
    {
        self.grid = self.initial.clone();
    }

    /// Erases every cell: the grid keeps its size and is all background.
    pub fn clear(&mut self)
        ensures
            final(self).cells() == filled(
                old(self).cells()[0].len(),
                old(self).cells().len(),
                Color::background(),
            ),
            final(self).snapshot() == old(self).snapshot(),
            final(self).color() == old(self).color(),
    {
        let width: usize = self.grid.width();
        let height: usize = self.grid.height();
        self.grid = Grid::blank(width, height);
    }

    /// One tick of painting with the selected colour.
    pub fn paint(&mut self, controller: &PaintController, pointer: Pointer, button: Button)
        ensures
            final(self).cells() == controller.painted(
                old(self).cells(),
                pointer,
                fires(controller.press, button),
                old(self).color(),
            ),
            final(self).snapshot() == old(self).snapshot(),
            final(self).color() == old(self).color(),
    {
        controller.tick(&mut self.grid, pointer, button, self.tool.color);
    }
}

} // verus!

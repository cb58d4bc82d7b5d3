//! The grid of cells: a rectangle of colours addressed by column and row.

use vstd::prelude::*;
use crate::color::Color;

verus! {

/// The failure of a cell access whose column or row lies outside the grid.
#[derive(Clone, Copy, Debug, PartialEq, Eq, Structural)]
pub struct OutOfBounds;

/// Whether `cells`, read as a sequence of rows, is a rectangle with at least
/// one row and at least one column.
pub open spec fn rectangular(cells: Seq<Seq<Color>>) -> bool {
    &&& cells.len() >= 1
    &&& cells[0].len() >= 1
    &&& forall|y: int| 0 <= y < cells.len() ==> #[trigger] cells[y].len() == cells[0].len()
}

/// The rows of a grid of the given size whose every cell is `fill`.
pub open spec fn filled(width: nat, height: nat, fill: Color) -> Seq<Seq<Color>> {
    Seq::new(height, |y: int| Seq::new(width, |x: int| fill))
}

/// The rows held by `rows`, each as a sequence of colours.
pub open spec fn rows_view(rows: Seq<Vec<Color>>) -> Seq<Seq<Color>> {
    Seq::new(rows.len(), |y: int| rows[y]@)
}

/// `cells` with the cell in column `x` of row `y` replaced by `color`.
pub open spec fn with_cell(cells: Seq<Seq<Color>>, x: int, y: int, color: Color) -> Seq<
    Seq<Color>,
> {
    cells.update(y, cells[y].update(x, color))
}

/// Gives the cell in column `x` of row `y` of the rows `rows` the colour
/// `color`.
fn put(rows: &mut Vec<Vec<Color>>, x: usize, y: usize, color: Color)
    requires
        y < old(rows)@.len(),
        x < old(rows)@[y as int]@.len(),
    ensures
        rows_view(final(rows)@) == with_cell(rows_view(old(rows)@), x as int, y as int, color),
    no_unwind
{
    rows[y][x] = color;
    assert(rows_view(rows@) =~~= with_cell(rows_view(old(rows)@), x as int, y as int, color));
}

/// A rectangular grid of colours. Its view is the sequence of its rows, top
/// row first; `g@[y][x]` is the cell in column `x` of row `y`.
#[derive(Debug, PartialEq, Eq)]
pub struct Grid {
    rows: Vec<Vec<Color>>,
}

impl View for Grid {
    type V = Seq<Seq<Color>>;

    closed spec fn view(&self) -> Seq<Seq<Color>> {
        rows_view(self.rows@)
    }
}

impl Grid {
    /// The invariant of the type: the rows make a rectangle, at least one
    /// cell wide and one cell high.
    #[verifier::type_invariant]
    closed spec fn inv(&self) -> bool {
        rectangular(rows_view(self.rows@))
    }

    /// What holds of every grid, said of its view: it is a rectangle, at least
    /// one cell wide and one cell high. The functions that take or give a grid
    /// say so of it.
    pub open spec fn wf(&self) -> bool {
        rectangular(self@)
    }

    /// The number of columns.
    pub open spec fn spec_width(&self) -> nat {
        self@[0].len()
    }

    /// The number of rows.
    pub open spec fn spec_height(&self) -> nat {
        self@.len()
    }

    /// Whether column `x` of row `y` is a cell of the grid.
    pub open spec fn contains(&self, x: int, y: int) -> bool {
        0 <= x < self.spec_width() && 0 <= y < self.spec_height()
    }

    /// A grid of `width` columns and `height` rows whose every cell is `fill`.
    pub fn create(width: usize, height: usize, fill: Color) -> (g: Grid)
        requires
            width >= 1,
            height >= 1,
        ensures
            g.wf(),
            g.spec_width() == width,
            g.spec_height() == height,
            g@ == filled(width as nat, height as nat, fill),
            forall|x: int, y: int| g.contains(x, y) ==> g@[y][x] == fill,
    {
        let mut rows: Vec<Vec<Color>> = Vec::new();
        let mut y: usize = 0;
        while y < height
            invariant
                y <= height,
                rows@.len() == y,
                forall|j: int|
                    0 <= j < y ==> (#[trigger] rows@[j])@ == Seq::new(
                        width as nat,
                        |x: int| fill,
                    ),
            decreases height - y,
        {
            let mut row: Vec<Color> = Vec::new();
            let mut x: usize = 0;
            while x < width
                invariant
                    x <= width,
                    row@.len() == x,
                    forall|i: int| 0 <= i < x ==> row@[i] == fill,
                decreases width - x,
            {
                row.push(fill);
                x += 1;
            }
            assert(row@ =~= Seq::new(width as nat, |x: int| fill));
            rows.push(row);
            y += 1;
        }
        let g = Grid { rows };
        assert(g@ =~~= filled(width as nat, height as nat, fill));
        g
    }

    /// A grid of the given size whose every cell is the background.
    pub fn blank(width: usize, height: usize) -> (g: Grid)
        requires
            width >= 1,
            height >= 1,
        ensures
            g.wf(),
            g.spec_width() == width,
            g.spec_height() == height,
            g@ == filled(width as nat, height as nat, Color::background()),
    {
        Grid::create(width, height, Color::background())
    }

    /// The grid made of the given rows, if they form a rectangle with at
    /// least one cell.
    pub fn from_rows(rows: Vec<Vec<Color>>) -> (r: Option<Grid>)
        ensures
            r is Some <==> rectangular(rows_view(rows@)),
            r matches Some(g) ==> g.wf() && g@ == rows_view(rows@),
    {
        if rows.len() == 0 {
            return None;
        }
        let width: usize = rows[0].len();
        if width == 0 {
            return None;
        }
        let mut y: usize = 1;
        while y < rows.len()
            invariant
                1 <= y <= rows.len(),
                width == rows@[0]@.len(),
                forall|j: int| 0 <= j < y ==> (#[trigger] rows@[j])@.len() == width,
            decreases rows.len() - y,
        {
            if rows[y].len() != width {
                assert(rows_view(rows@)[y as int].len() != rows_view(rows@)[0].len());
                return None;
            }
            y += 1;
        }
        Some(Grid { rows })
    }

    /// The number of columns.
    pub fn width(&self) -> (w: usize)
        ensures
            self.wf(),
            w == self.spec_width(),
            w >= 1,
    {
        proof {
            use_type_invariant(self);
        }
        self.rows[0].len()
    }

    /// The number of rows.
    pub fn height(&self) -> (h: usize)
        ensures
            self.wf(),
            h == self.spec_height(),
            h >= 1,
    {
        proof {
            use_type_invariant(self);
        }
        self.rows.len()
    }

    /// The colour of the cell in column `x` of row `y`.
    pub fn get(&self, x: usize, y: usize) -> (r: Result<Color, OutOfBounds>)
        ensures
            self.wf(),
            self.contains(x as int, y as int) ==> r == Ok::<Color, OutOfBounds>(
                self@[y as int][x as int],
            ),
            !self.contains(x as int, y as int) ==> r == Err::<Color, OutOfBounds>(OutOfBounds),
    {
        proof {
            use_type_invariant(self);
        }
        if y < self.rows.len() && x < self.rows[0].len() {
            assert(self@[y as int].len() == self@[0].len());
            Ok(self.rows[y][x])
        } else {
            Err(OutOfBounds)
        }
    }

    /// Gives the cell in column `x` of row `y` the colour `color`. No other
    /// cell changes, and outside the grid nothing does.
    pub fn set(&mut self, x: usize, y: usize, color: Color) -> (r: Result<(), OutOfBounds>)
        ensures
            old(self).wf(),
            final(self).wf(),
            old(self).contains(x as int, y as int) ==> r == Ok::<(), OutOfBounds>(())
                && final(self)@ == with_cell(old(self)@, x as int, y as int, color),
            !old(self).contains(x as int, y as int) ==> r == Err::<(), OutOfBounds>(OutOfBounds)
                && final(self)@ == old(self)@,
    {
        proof {
            use_type_invariant(&*self);
        }
        if y < self.rows.len() && x < self.rows[0].len() {
            assert(self@[y as int].len() == self@[0].len());
            put(&mut self.rows, x, y, color);
            assert(self@ =~~= with_cell(old(self)@, x as int, y as int, color));
            Ok(())
        } else {
            Err(OutOfBounds)
        }
    }

    /// The rows of the grid, top row first.
    pub fn to_rows(&self) -> (rows: Vec<Vec<Color>>)
        ensures
            self.wf(),
            rows_view(rows@) == self@,
    {
        let copy = self.clone();
        copy.rows
    }
}

impl Clone for Grid {
    /// A copy that shares nothing with the grid it was made from.
    fn clone(&self) -> (g: Grid)
        ensures
            self.wf(),
            g@ == self@,
    {
        proof {
            use_type_invariant(self);
        }
        let mut rows: Vec<Vec<Color>> = Vec::new();
        let mut y: usize = 0;
        while y < self.rows.len()
            invariant
                y <= self.rows@.len(),
                rows@.len() == y,
                forall|j: int| 0 <= j < y ==> (#[trigger] rows@[j])@ == self.rows@[j]@,
            decreases self.rows@.len() - y,
        {
            let mut row: Vec<Color> = Vec::new();
            let mut x: usize = 0;
            while x < self.rows[y].len()
                invariant
                    y < self.rows@.len(),
                    x <= self.rows@[y as int]@.len(),
                    row@.len() == x,
                    forall|i: int| 0 <= i < x ==> row@[i] == self.rows@[y as int]@[i],
                decreases self.rows@[y as int]@.len() - x,
            {
                row.push(self.rows[y][x]);
                x += 1;
            }
            assert(row@ =~= self.rows@[y as int]@);
            rows.push(row);
            y += 1;
        }
        assert(rows_view(rows@) =~~= self@);
        Grid { rows }
    }
}

/// A grid that is made with one colour is a rectangle of the given size, and
/// every cell of it has that colour.
pub proof fn lemma_filled(width: nat, height: nat, fill: Color)
    requires
        width >= 1,
        height >= 1,
    ensures
        rectangular(filled(width, height, fill)),
        filled(width, height, fill).len() == height,
        forall|x: int, y: int|
            0 <= x < width && 0 <= y < height ==> filled(width, height, fill)[y].len() == width
                && #[trigger] filled(width, height, fill)[y][x] == fill,
{
}

} // verus!

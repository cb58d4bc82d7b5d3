//! Where the cells of a grid lie on the screen, and which cell a pointer is
//! over.

use vstd::prelude::*;

verus! {

/// A position on the screen, in whole pixels.
#[derive(Clone, Copy, Debug, PartialEq, Eq, Structural)]
pub struct Pointer {
    pub x: i32,
    pub y: i32,
}

/// How the cells are laid out.
#[derive(Clone, Copy, Debug, PartialEq, Eq, Structural)]
pub enum Layout {
    /// The cells are `cell_size` wide and `gap` apart: a cell and the gap
    /// before it take `cell_size + gap`.
    Spaced,
    /// The cells are packed edge to edge, `cell_size` apart. The first `gap`
    /// units of a cell hold the line that borders it and belong to no cell.
    Packed,
}

/// A square on the screen: the positions from `left` up to, but not
/// including, `left + side`, and likewise from `top`.
#[derive(Clone, Copy, Debug, PartialEq, Eq, Structural)]
pub struct Rect {
    pub left: i64,
    pub top: i64,
    pub side: u32,
}

impl Rect {
    /// Whether the square holds the position `p`.
    pub open spec fn spec_contains(self, p: Pointer) -> bool {
        self.left <= p.x < self.left + self.side && self.top <= p.y < self.top + self.side
    }

    /// Whether the square holds the position `p`.
    #[verifier::when_used_as_spec(spec_contains)]
    pub fn contains(self, p: Pointer) -> (inside: bool)
        ensures
            inside == self.spec_contains(p),
    {
        let x: i128 = p.x as i128;
        let y: i128 = p.y as i128;
        let left: i128 = self.left as i128;
        let top: i128 = self.top as i128;
        let side: i128 = self.side as i128;
        left <= x && x < left + side && top <= y && y < top + side
    }
}

/// The layout of a grid's cells on the screen: where the grid begins, how
/// large a cell is, and how wide the gap between two cells.
#[derive(Clone, Copy, Debug, PartialEq, Eq, Structural)]
pub struct CellGeometry {
    pub origin_x: i32,
    pub origin_y: i32,
    pub cell_size: u32,
    pub gap: u32,
    pub layout: Layout,
}

impl CellGeometry {
    /// The distance from the start of one cell to the start of the next.
    pub open spec fn pitch(self) -> int {
        match self.layout {
            Layout::Spaced => self.cell_size + self.gap,
            Layout::Packed => self.cell_size as int,
        }
    }

    /// The side of the square that a cell covers.
    pub open spec fn extent(self) -> int {
        match self.layout {
            Layout::Spaced => self.cell_size as int,
            Layout::Packed => if self.cell_size >= self.gap {
                self.cell_size - self.gap
            } else {
                0
            },
        }
    }

    /// The left edge of the cells in column `x`.
    pub open spec fn left(self, x: int) -> int {
        self.origin_x + self.pitch() * x + self.gap
    }

    /// The top edge of the cells in row `y`.
    pub open spec fn top(self, y: int) -> int {
        self.origin_y + self.pitch() * y + self.gap
    }

    /// Whether the square of the cell in column `x` of row `y` holds `p`.
    pub open spec fn covers(self, x: int, y: int, p: Pointer) -> bool {
        &&& self.left(x) <= p.x < self.left(x) + self.extent()
        &&& self.top(y) <= p.y < self.top(y) + self.extent()
    }

    /// Along one axis: which of `count` cells holds the position `offset`
    /// units from the origin, if one does.
    pub open spec fn axis_index(self, offset: int, count: int) -> Option<int> {
        let q = offset - self.gap;
        if self.pitch() > 0 && q >= 0 && q % self.pitch() < self.extent() && q / self.pitch()
            < count {
            Some(q / self.pitch())
        } else {
            None
        }
    }

    /// The column and the row of the cell under `p` in a grid of `width`
    /// columns and `height` rows, if `p` is over a cell.
    pub open spec fn cell_of(self, p: Pointer, width: int, height: int) -> Option<(int, int)> {
        match (
            self.axis_index(p.x - self.origin_x, width),
            self.axis_index(p.y - self.origin_y, height),
        ) {
            (Some(x), Some(y)) => Some((x, y)),
            _ => None,
        }
    }

    /// The geometry that fits `side` cells, one unit apart, into `budget`
    /// units: the cell size is `(budget - side) / side`, the origin is the
    /// screen's. There is none for no cells, or for more cells than units.
    pub fn fit(budget: u32, side: usize, layout: Layout) -> (r: Option<CellGeometry>)
        ensures
            r is Some <==> 1 <= side <= budget,
            r matches Some(g) ==> g == (CellGeometry {
                origin_x: 0,
                origin_y: 0,
                cell_size: ((budget - side) / (side as int)) as u32,
                gap: 1,
                layout,
            }) && side * (g.cell_size + 1) <= budget,
    {
        if side == 0 || side > budget as usize {
            return None;
        }
        let count: u32 = side as u32;
        let cell_size: u32 = (budget - count) / count;
        proof {
            let free = (budget - count) as int;
            let n = count as int;
            assert(n * (free / n) <= free) by (nonlinear_arith)
                requires
                    n > 0,
                    free >= 0,
            ;
            assert(n * (free / n + 1) == n * (free / n) + n) by (nonlinear_arith);
        }
        Some(CellGeometry { origin_x: 0, origin_y: 0, cell_size, gap: 1, layout })
    }

    /// The square that the cell in column `x` of row `y` covers, if its
    /// edges can be told in 64 bits.
    pub fn cell_rect(&self, x: usize, y: usize) -> (r: Option<Rect>)
        ensures
            r is Some <==> self.left(x as int) <= i64::MAX && self.top(y as int) <= i64::MAX,
            r matches Some(rect) ==> rect.left == self.left(x as int) && rect.top == self.top(
                y as int,
            ) && rect.side == self.extent(),
            r matches Some(rect) ==> forall|p: Pointer|
                rect.spec_contains(p) <==> self.covers(x as int, y as int, p),
    {
        let pitch: i128 = self.pitch_of();
        let side: u32 = self.extent_of();
        proof {
            assert(0 <= pitch * x <= 0x2_0000_0000 * 0x1_0000_0000_0000_0000) by (nonlinear_arith)
                requires
                    0 <= pitch <= 0x2_0000_0000,
                    0 <= x <= 0x1_0000_0000_0000_0000,
            ;
            assert(0 <= pitch * y <= 0x2_0000_0000 * 0x1_0000_0000_0000_0000) by (nonlinear_arith)
                requires
                    0 <= pitch <= 0x2_0000_0000,
                    0 <= y <= 0x1_0000_0000_0000_0000,
            ;
        }
        let left: i128 = self.origin_x as i128 + pitch * (x as i128) + self.gap as i128;
        let top: i128 = self.origin_y as i128 + pitch * (y as i128) + self.gap as i128;
        if left <= i64::MAX as i128 && top <= i64::MAX as i128 {
            Some(Rect { left: left as i64, top: top as i64, side })
        } else {
            None
        }
    }

    /// The column and the row of the cell under `pointer` in a grid of
    /// `width` columns and `height` rows, if the pointer is over a cell.
    pub fn cell_at(&self, pointer: Pointer, width: usize, height: usize) -> (r: Option<
        (usize, usize),
    >)
        ensures
            match r {
                Some((x, y)) => self.cell_of(pointer, width as int, height as int) == Some(
                    (x as int, y as int),
                ),
                None => self.cell_of(pointer, width as int, height as int) is None,
            },
    {
        let x: Option<usize> = self.axis_cell(pointer.x, self.origin_x, width);
        let y: Option<usize> = self.axis_cell(pointer.y, self.origin_y, height);
        match (x, y) {
            (Some(x), Some(y)) => Some((x, y)),
            _ => None,
        }
    }

    /// The distance from the start of one cell to the start of the next.
    fn pitch_of(&self) -> (pitch: i128)
        ensures
            pitch == self.pitch(),
            0 <= pitch <= 0x2_0000_0000,
    {
        match self.layout {
            Layout::Spaced => self.cell_size as i128 + self.gap as i128,
            Layout::Packed => self.cell_size as i128,
        }
    }

    /// The side of the square that a cell covers.
    fn extent_of(&self) -> (extent: u32)
        ensures
            extent == self.extent(),
    {
        match self.layout {
            Layout::Spaced => self.cell_size,
            Layout::Packed => if self.cell_size >= self.gap {
                self.cell_size - self.gap
            } else {
                0
            },
        }
    }

    /// Along one axis: which of `count` cells holds the position `at`, if one
    /// does.
    fn axis_cell(&self, at: i32, origin: i32, count: usize) -> (r: Option<usize>)
        ensures
            match r {
                Some(i) => self.axis_index(at - origin, count as int) == Some(i as int),
                None => self.axis_index(at - origin, count as int) is None,
            },
    {
        let pitch: i128 = self.pitch_of();
        let extent: i128 = self.extent_of() as i128;
        let q: i128 = at as i128 - origin as i128 - self.gap as i128;
        if pitch == 0 || q < 0 {
            return None;
        }
        let index: i128 = q / pitch;
        let rest: i128 = q % pitch;
        proof {
            assert(0 <= q / pitch <= q) by (nonlinear_arith)
                requires
                    q >= 0,
                    pitch > 0,
            ;
        }
        if rest < extent && index < count as i128 {
            Some(index as usize)
        } else {
            None
        }
    }
}

/// Along one axis, a position lies in the square of cell `i` exactly when the
/// division finds cell `i` for it.
pub proof fn lemma_axis_index(g: CellGeometry, origin: int, at: int, count: int, i: int)
    requires
        0 <= i < count,
    ensures
        g.axis_index(at - origin, count) == Some(i) <==> origin + g.pitch() * i + g.gap <= at
            < origin + g.pitch() * i + g.gap + g.extent(),
{
    let pitch = g.pitch();
    let extent = g.extent();
    let q = at - origin - g.gap;
    assert(0 <= extent <= pitch);
    if pitch > 0 {
        if q >= 0 && q % pitch < extent && q / pitch == i {
            assert(q == pitch * (q / pitch) + q % pitch) by (nonlinear_arith)
                requires
                    pitch > 0,
            ;
        }
        if pitch * i <= q < pitch * i + extent {
            assert(q / pitch == i && q % pitch == q - pitch * i) by (nonlinear_arith)
                requires
                    pitch > 0,
                    pitch * i <= q < pitch * i + pitch,
            ;
            assert(0 <= pitch * i) by (nonlinear_arith)
                requires
                    0 <= i,
                    0 < pitch,
            ;
        }
    } else {
        assert(pitch * i == 0) by (nonlinear_arith)
            requires
                pitch == 0,
        ;
    }
}

/// The pointer is found over a cell of the grid exactly when the cell's square
/// holds it. So no position is over two cells, and a position over none is in
/// no cell's square.
pub proof fn lemma_cell_of_iff_covers(
    g: CellGeometry,
    p: Pointer,
    width: int,
    height: int,
    x: int,
    y: int,
)
    requires
        0 <= x < width,
        0 <= y < height,
    ensures
        g.cell_of(p, width, height) == Some((x, y)) <==> g.covers(x, y, p),
{
    lemma_axis_index(g, g.origin_x as int, p.x as int, width, x);
    lemma_axis_index(g, g.origin_y as int, p.y as int, height, y);
}

/// The cell that is found for a pointer is a cell of the grid.
pub proof fn lemma_cell_of_in_grid(g: CellGeometry, p: Pointer, width: int, height: int)
    ensures
        g.cell_of(p, width, height) matches Some((x, y)) ==> 0 <= x < width && 0 <= y < height,
{
    let pitch = g.pitch();
    if pitch > 0 {
        let qx = p.x - g.origin_x - g.gap;
        let qy = p.y - g.origin_y - g.gap;
        if qx >= 0 {
            assert(0 <= qx / pitch) by (nonlinear_arith)
                requires
                    qx >= 0,
                    pitch > 0,
            ;
        }
        if qy >= 0 {
            assert(0 <= qy / pitch) by (nonlinear_arith)
                requires
                    qy >= 0,
                    pitch > 0,
            ;
        }
    }
}

/// The squares of two cells share no position: a pointer that two squares
/// hold is held by one cell's square twice.
pub proof fn lemma_cells_disjoint(g: CellGeometry, p: Pointer, x1: int, y1: int, x2: int, y2: int)
    requires
        0 <= x1,
        0 <= y1,
        0 <= x2,
        0 <= y2,
        g.covers(x1, y1, p),
        g.covers(x2, y2, p),
    ensures
        x1 == x2,
        y1 == y2,
{
    let width = x1 + x2 + 1;
    let height = y1 + y2 + 1;
    lemma_cell_of_iff_covers(g, p, width, height, x1, y1);
    lemma_cell_of_iff_covers(g, p, width, height, x2, y2);
}

} // verus!

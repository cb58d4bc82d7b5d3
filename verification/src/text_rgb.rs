//! The text codec: a grid as a text of four header lines and one line of
//! decimal numbers for each row.
//!
//! ```text
//! P3
//! <width> <height>
//! 255
//!
//! <red> <green> <blue> <red> <green> <blue> ...
//! ```
//!
//! A channel is written as it is stored, from 0 to 255. A channel that is read
//! is brought to the nearest hundredth of full intensity, so a grid keeps no
//! more than 101 levels of each channel once it has been through a file.

use vstd::prelude::*;
use crate::codec::FormatError;
use crate::color::{quantize_channel, quantized, Color};
use crate::grid::{rectangular, rows_view, Grid};
use crate::text::{
    channel_value, decimal, free_of, lemma_channel_value_of_decimal, lemma_decimal,
    lemma_nonempty_all, lemma_pieces_push, lines, parse_channel, pieces, push_decimal, split,
    split_words, texts, words, Separator, NEWLINE, SPACE,
};

verus! {

/// The number of lines before the first row.
pub const HEADER_LINES: usize = 4;

/// The first line of every file: `P3`.
pub open spec fn magic() -> Seq<u8> {
    seq![80u8, 51u8]
}

/// The third line of every file, the largest value of a channel: `255`.
pub open spec fn depth() -> Seq<u8> {
    seq![50u8, 53u8, 53u8]
}

/// The second line of a file: the width and the height.
pub open spec fn size_line(width: nat, height: nat) -> Seq<u8> {
    decimal(width).push(SPACE) + decimal(height)
}

/// The four header lines of the file of a grid of the given size, each with
/// its newline.
pub open spec fn header(width: nat, height: nat) -> Seq<u8> {
    magic().push(NEWLINE) + size_line(width, height).push(NEWLINE) + depth().push(NEWLINE)
        + seq![NEWLINE]
}

/// A cell as it is written: red, green and blue in decimal, a space after
/// each.
pub open spec fn pixel_text(c: Color) -> Seq<u8> {
    decimal(c.r as nat).push(SPACE) + decimal(c.g as nat).push(SPACE) + decimal(c.b as nat).push(
        SPACE,
    )
}

/// A row as it is written: its cells one after the other.
pub open spec fn row_text(row: Seq<Color>) -> Seq<u8>
    decreases row.len(),
{
    if row.len() == 0 {
        Seq::empty()
    } else {
        row_text(row.drop_last()) + pixel_text(row.last())
    }
}

/// The rows as they are written: each on a line of its own.
pub open spec fn body(cells: Seq<Seq<Color>>) -> Seq<u8>
    decreases cells.len(),
{
    if cells.len() == 0 {
        Seq::empty()
    } else {
        body(cells.drop_last()) + row_text(cells.last()).push(NEWLINE)
    }
}

/// The file of the grid with the cells `cells`.
pub open spec fn rendered(cells: Seq<Seq<Color>>) -> Seq<u8> {
    header(cells[0].len(), cells.len()) + body(cells)
}

/// The cell that three channel values, as read, stand for: each brought to
/// the nearest hundredth of full intensity, and opaque.
pub open spec fn cell_of_values(r: u8, g: u8, b: u8) -> Color {
    Color { r: quantized(r), g: quantized(g), b: quantized(b), a: 255 }
}

/// The cells that a line of a file stands for: three words for each cell,
/// every word a channel value. There are none where a word is no channel value
/// or the number of words is no multiple of three.
pub open spec fn row_cells(line: Seq<u8>) -> Option<Seq<Color>> {
    let ws = words(line);
    if ws.len() % 3 == 0 && (forall|i: int|
        0 <= i < ws.len() ==> channel_value(#[trigger] ws[i]) is Some) {
        Some(
            Seq::new(
                ws.len() / 3,
                |x: int|
                    cell_of_values(
                        channel_value(ws[3 * x])->Some_0,
                        channel_value(ws[3 * x + 1])->Some_0,
                        channel_value(ws[3 * x + 2])->Some_0,
                    ),
            ),
        )
    } else {
        None
    }
}

/// The cells that a file with the contents `s` stands for. The first four
/// lines are the header, and are not read; each line after them is a row.
/// There are none where the file has fewer than four lines, where a line is no
/// row, or where the rows do not make a rectangle with at least one cell.
pub open spec fn parsed(s: Seq<u8>) -> Option<Seq<Seq<Color>>> {
    let ls = lines(s);
    if ls.len() < HEADER_LINES {
        None
    } else {
        let rows = ls.skip(HEADER_LINES as int);
        let cells = Seq::new(rows.len(), |y: int| row_cells(rows[y])->Some_0);
        if (forall|y: int| 0 <= y < rows.len() ==> row_cells(#[trigger] rows[y]) is Some)
            && rectangular(cells) {
            Some(cells)
        } else {
            None
        }
    }
}

/// Appends a cell as it is written.
fn push_pixel_text(out: &mut Vec<u8>, c: Color)
    ensures
        final(out)@ == old(out)@ + pixel_text(c),
{
    push_decimal(out, c.r as usize);
    out.push(SPACE);
    push_decimal(out, c.g as usize);
    out.push(SPACE);
    push_decimal(out, c.b as usize);
    out.push(SPACE);
    assert(out@ =~= old(out)@ + pixel_text(c));
}

/// Appends the four header lines.
fn push_header(out: &mut Vec<u8>, width: usize, height: usize)
    ensures
        final(out)@ == old(out)@ + header(width as nat, height as nat),
{
    out.push(80);
    out.push(51);
    out.push(NEWLINE);
    push_decimal(out, width);
    out.push(SPACE);
    push_decimal(out, height);
    out.push(NEWLINE);
    out.push(50);
    out.push(53);
    out.push(53);
    out.push(NEWLINE);
    out.push(NEWLINE);
    assert(out@ =~= old(out)@ + header(width as nat, height as nat));
}

/// The file of a grid: the header, and a line of numbers for each row, the
/// top row first.
pub fn encode(grid: &Grid) -> (out: Vec<u8>)
    ensures
        grid.wf(),
        out@ == rendered(grid@),
{
    let width: usize = grid.width();
    let height: usize = grid.height();
    let mut out: Vec<u8> = Vec::new();
    push_header(&mut out, width, height);
    let ghost head = header(width as nat, height as nat);
    let mut y: usize = 0;
    proof {
        assert(grid@.take(0) =~= Seq::<Seq<Color>>::empty());
        assert(out@ =~= head + body(grid@.take(0)));
    }
    while y < height
        invariant
            grid.wf(),
            width == grid.spec_width(),
            height == grid.spec_height(),
            head == header(width as nat, height as nat),
            y <= height,
            out@ == head + body(grid@.take(y as int)),
        decreases height - y,
    {
        let ghost before = out@;
        let ghost row = grid@[y as int];
        let mut x: usize = 0;
        proof {
            assert(row.take(0) =~= Seq::<Color>::empty());
            assert(out@ =~= before + row_text(row.take(0)));
        }
        while x < width
            invariant
                grid.wf(),
                width == grid.spec_width(),
                height == grid.spec_height(),
                y < height,
                row == grid@[y as int],
                row.len() == width,
                x <= width,
                out@ == before + row_text(row.take(x as int)),
            decreases width - x,
        {
            let c: Color = grid.get(x, y).unwrap();
            push_pixel_text(&mut out, c);
            proof {
                let next = row.take(x + 1);
                assert(next.drop_last() =~= row.take(x as int));
                assert(next.last() == c);
                assert(out@ =~= before + row_text(next));
            }
            x += 1;
        }
        out.push(NEWLINE);
        proof {
            assert(row.take(width as int) =~= row);
            let next = grid@.take(y + 1);
            assert(next.drop_last() =~= grid@.take(y as int));
            assert(next.last() == row);
            assert(out@ =~= head + body(next));
        }
        y += 1;
    }
    proof {
        assert(grid@.take(height as int) =~= grid@);
    }
    out
}

/// The cells that a line stands for, if it is a row.
pub fn parse_row(line: &Vec<u8>) -> (r: Option<Vec<Color>>)
    ensures
        match row_cells(line@) {
            Some(cells) => r is Some && r->Some_0@ == cells,
            None => r is None,
        },
{
    let ws: Vec<Vec<u8>> = split_words(line.as_slice());
    let n: usize = ws.len();
    let ghost wt = words(line@);
    assert(wt.len() == n);
    if n % 3 != 0 {
        return None;
    }
    let count: usize = n / 3;
    let mut row: Vec<Color> = Vec::new();
    let mut x: usize = 0;
    while x < count
        invariant
            wt == words(line@),
            wt == texts(ws@),
            n == ws@.len(),
            n % 3 == 0,
            count == n / 3,
            x <= count,
            row@.len() == x,
            forall|i: int| 0 <= i < 3 * x ==> channel_value(#[trigger] wt[i]) is Some,
            forall|i: int|
                0 <= i < x ==> #[trigger] row@[i] == cell_of_values(
                    channel_value(wt[3 * i])->Some_0,
                    channel_value(wt[3 * i + 1])->Some_0,
                    channel_value(wt[3 * i + 2])->Some_0,
                ),
        decreases count - x,
    {
        assert(wt[3 * x] == ws@[3 * x]@);
        assert(wt[3 * x + 1] == ws@[3 * x + 1]@);
        assert(wt[3 * x + 2] == ws@[3 * x + 2]@);
        let r: u8 = match parse_channel(&ws[3 * x]) {
            Some(v) => v,
            None => {
                return None;
            },
        };
        let g: u8 = match parse_channel(&ws[3 * x + 1]) {
            Some(v) => v,
            None => {
                return None;
            },
        };
        let b: u8 = match parse_channel(&ws[3 * x + 2]) {
            Some(v) => v,
            None => {
                return None;
            },
        };
        row.push(
            Color {
                r: quantize_channel(r),
                g: quantize_channel(g),
                b: quantize_channel(b),
                a: 255,
            },
        );
        x += 1;
    }
    assert(row@ =~= row_cells(line@)->Some_0);
    Some(row)
}

/// The grid that a file with the given contents stands for, or the failure
/// where the contents are no such file.
pub fn decode(contents: &[u8]) -> (r: Result<Grid, FormatError>)
    ensures
        match parsed(contents@) {
            Some(cells) => r is Ok && r->Ok_0.wf() && r->Ok_0@ == cells,
            None => r is Err,
        },
{
    let all: Vec<Vec<u8>> = split(contents, Separator::Newline);
    if all.len() < HEADER_LINES {
        return Err(FormatError);
    }
    let ghost ls = lines(contents@);
    let ghost rows_text = ls.skip(HEADER_LINES as int);
    let mut rows: Vec<Vec<Color>> = Vec::new();
    let mut i: usize = HEADER_LINES;
    while i < all.len()
        invariant
            ls == lines(contents@),
            ls == texts(all@),
            rows_text == ls.skip(HEADER_LINES as int),
            HEADER_LINES <= i <= all@.len(),
            rows@.len() == i - HEADER_LINES,
            forall|y: int|
                0 <= y < i - HEADER_LINES ==> row_cells(#[trigger] rows_text[y]) == Some(
                    rows@[y]@,
                ),
        decreases all@.len() - i,
    {
        assert(rows_text[i - HEADER_LINES] == all@[i as int]@);
        match parse_row(&all[i]) {
            Some(row) => {
                rows.push(row);
            },
            None => {
                return Err(FormatError);
            },
        }
        i += 1;
    }
    proof {
        let cells = Seq::new(rows_text.len(), |y: int| row_cells(rows_text[y])->Some_0);
        assert(rows_view(rows@) =~~= cells);
    }
    match Grid::from_rows(rows) {
        Some(grid) => Ok(grid),
        None => Err(FormatError),
    }
}

/// Whether a file keeps every cell of `cells` as it is: each is opaque, and
/// its red, green and blue lie on a hundredth of full intensity.
pub open spec fn kept_by_text(cells: Seq<Seq<Color>>) -> bool {
    forall|x: int, y: int|
        0 <= y < cells.len() && 0 <= x < cells[y].len() ==> {
            let c = #[trigger] cells[y][x];
            c.is_opaque() && c.is_quantized()
        }
}

/// Red, green or blue of a cell: channel 0, 1 or 2.
pub open spec fn channel(c: Color, k: int) -> u8 {
    if k == 0 {
        c.r
    } else if k == 1 {
        c.g
    } else {
        c.b
    }
}

/// The words of a row as it is written: the channels of its cells in decimal.
pub open spec fn row_words(row: Seq<Color>) -> Seq<Seq<u8>> {
    Seq::new(3 * row.len(), |i: int| decimal(channel(row[i / 3], i % 3) as nat))
}

/// The lines of the rows as they are written.
pub open spec fn row_texts(cells: Seq<Seq<Color>>) -> Seq<Seq<u8>> {
    Seq::new(cells.len(), |y: int| row_text(cells[y]))
}

/// A row as it is written holds no newline, and is empty or ends in a space.
pub proof fn lemma_row_text_shape(row: Seq<Color>)
    ensures
        free_of(row_text(row), Separator::Newline),
        row_text(row).len() == 0 || row_text(row).last() == SPACE,
    decreases row.len(),
{
    if row.len() > 0 {
        lemma_row_text_shape(row.drop_last());
        let c = row.last();
        lemma_decimal(c.r as nat);
        lemma_decimal(c.g as nat);
        lemma_decimal(c.b as nat);
    }
}

/// The words of a row as it is written are the channels of its cells, in
/// decimal.
pub proof fn lemma_row_words(row: Seq<Color>)
    ensures
        pieces(row_text(row), Separator::Blank) == row_words(row),
        words(row_text(row)) == row_words(row),
    decreases row.len(),
{
    let sep = Separator::Blank;
    if row.len() == 0 {
        assert(pieces(row_text(row), sep) =~= row_words(row));
    } else {
        let rest = row.drop_last();
        let c = row.last();
        lemma_row_words(rest);
        lemma_row_text_shape(rest);
        lemma_decimal(c.r as nat);
        lemma_decimal(c.g as nat);
        lemma_decimal(c.b as nat);
        let a0 = row_text(rest);
        let a1 = a0 + decimal(c.r as nat).push(SPACE);
        let a2 = a1 + decimal(c.g as nat).push(SPACE);
        let a3 = a2 + decimal(c.b as nat).push(SPACE);
        lemma_pieces_push(a0, decimal(c.r as nat), SPACE, sep);
        assert(a1.last() == SPACE);
        lemma_pieces_push(a1, decimal(c.g as nat), SPACE, sep);
        assert(a2.last() == SPACE);
        lemma_pieces_push(a2, decimal(c.b as nat), SPACE, sep);
        assert(row_text(row) =~= a3);
        let got = row_words(rest).push(decimal(c.r as nat)).push(decimal(c.g as nat)).push(
            decimal(c.b as nat),
        );
        assert(got.len() == row_words(row).len());
        assert forall|i: int| 0 <= i < got.len() implies got[i] == row_words(row)[i] by {
            if i < 3 * rest.len() {
                assert(rest[i / 3] == row[i / 3]);
            }
        }
        assert(got =~= row_words(row));
    }
    assert forall|i: int| 0 <= i < row_words(row).len() implies (#[trigger] row_words(
        row,
    )[i]).len() > 0 by {
        lemma_decimal(channel(row[i / 3], i % 3) as nat);
    }
    lemma_nonempty_all(row_words(row));
}

/// Word `i` of a row as it is written is channel `i % 3` of cell `i / 3`, and
/// is read back as that channel's value.
pub proof fn lemma_row_word(row: Seq<Color>, i: int)
    requires
        0 <= i < 3 * row.len(),
    ensures
        0 <= i / 3 < row.len(),
        0 <= i % 3 < 3,
        row_words(row)[i] == decimal(channel(row[i / 3], i % 3) as nat),
        channel_value(row_words(row)[i]) == Some(channel(row[i / 3], i % 3)),
{
    lemma_channel_value_of_decimal(channel(row[i / 3], i % 3));
}

/// A row of cells that a file keeps, written and read, is the same row.
pub proof fn lemma_row_round_trip(row: Seq<Color>)
    requires
        forall|x: int|
            0 <= x < row.len() ==> (#[trigger] row[x]).is_opaque() && row[x].is_quantized(),
    ensures
        row_cells(row_text(row)) == Some(row),
{
    lemma_row_words(row);
    let ws = words(row_text(row));
    assert(ws == row_words(row));
    assert(ws.len() == 3 * row.len());
    assert forall|i: int| 0 <= i < ws.len() implies channel_value(#[trigger] ws[i]) is Some by {
        lemma_row_word(row, i);
    }
    let got = Seq::new(
        ws.len() / 3,
        |x: int|
            cell_of_values(
                channel_value(ws[3 * x])->Some_0,
                channel_value(ws[3 * x + 1])->Some_0,
                channel_value(ws[3 * x + 2])->Some_0,
            ),
    );
    assert(row_cells(row_text(row)) == Some(got));
    assert(got.len() == row.len());
    assert forall|x: int| 0 <= x < row.len() implies got[x] == row[x] by {
        lemma_row_word(row, 3 * x);
        lemma_row_word(row, 3 * x + 1);
        lemma_row_word(row, 3 * x + 2);
        let c = row[x];
        assert(c.is_opaque() && c.is_quantized());
        assert(channel_value(ws[3 * x]) == Some(c.r));
        assert(channel_value(ws[3 * x + 1]) == Some(c.g));
        assert(channel_value(ws[3 * x + 2]) == Some(c.b));
    }
    assert(got =~= row);
}

/// The lines of the header are the four header lines.
pub proof fn lemma_header_lines(width: nat, height: nat)
    ensures
        lines(header(width, height)) == seq![
            magic(),
            size_line(width, height),
            depth(),
            Seq::<u8>::empty(),
        ],
        header(width, height).last() == NEWLINE,
{
    let sep = Separator::Newline;
    lemma_decimal(width);
    lemma_decimal(height);
    let none = Seq::<u8>::empty();
    let a1 = none + magic().push(NEWLINE);
    let a2 = a1 + size_line(width, height).push(NEWLINE);
    let a3 = a2 + depth().push(NEWLINE);
    let a4 = a3 + none.push(NEWLINE);
    assert(pieces(none, sep) =~= Seq::<Seq<u8>>::empty());
    lemma_pieces_push(none, magic(), NEWLINE, sep);
    assert(a1.last() == NEWLINE);
    lemma_pieces_push(a1, size_line(width, height), NEWLINE, sep);
    assert(a2.last() == NEWLINE);
    lemma_pieces_push(a2, depth(), NEWLINE, sep);
    assert(a3.last() == NEWLINE);
    lemma_pieces_push(a3, none, NEWLINE, sep);
    assert(header(width, height) =~= a4);
    assert(pieces(a4, sep) =~= seq![magic(), size_line(width, height), depth(), none]);
}

/// The lines of a text that ends in a newline, followed by rows as they are
/// written: the lines of the text, and a line for each row.
pub proof fn lemma_body_lines(head: Seq<u8>, cells: Seq<Seq<Color>>)
    requires
        head.len() == 0 || head.last() == NEWLINE,
    ensures
        lines(head + body(cells)) == lines(head) + row_texts(cells),
        (head + body(cells)).len() == 0 || (head + body(cells)).last() == NEWLINE,
    decreases cells.len(),
{
    if cells.len() == 0 {
        assert(head + body(cells) =~= head);
        assert(lines(head) + row_texts(cells) =~= lines(head));
    } else {
        let rest = cells.drop_last();
        let row = cells.last();
        lemma_body_lines(head, rest);
        lemma_row_text_shape(row);
        let a = head + body(rest);
        lemma_pieces_push(a, row_text(row), NEWLINE, Separator::Newline);
        assert(head + body(cells) =~= a + row_text(row).push(NEWLINE));
        assert((lines(head) + row_texts(rest)).push(row_text(row)) =~= lines(head) + row_texts(
            cells,
        ));
    }
}

/// The round trip through a file: a grid whose cells a file keeps, written
/// and read, is the same grid.
pub proof fn lemma_round_trip(cells: Seq<Seq<Color>>)
    requires
        rectangular(cells),
        kept_by_text(cells),
    ensures
        parsed(rendered(cells)) == Some(cells),
{
    let width = cells[0].len();
    let height = cells.len();
    let head = header(width, height);
    lemma_header_lines(width, height);
    lemma_body_lines(head, cells);
    let ls = lines(rendered(cells));
    let rows = ls.skip(HEADER_LINES as int);
    assert(rows =~= row_texts(cells));
    assert forall|y: int| 0 <= y < rows.len() implies row_cells(#[trigger] rows[y]) == Some(
        cells[y],
    ) by {
        assert forall|x: int| 0 <= x < cells[y].len() implies (#[trigger] cells[y][x]).is_opaque()
            && cells[y][x].is_quantized() by {}
        lemma_row_round_trip(cells[y]);
    }
    let got = Seq::new(rows.len(), |y: int| row_cells(rows[y])->Some_0);
    assert(got =~= cells);
}

/// What is read from a file is kept by a file: every cell is opaque and lies
/// on the levels, so that writing it and reading it again changes nothing.
pub proof fn lemma_parsed_is_kept(s: Seq<u8>)
    requires
        parsed(s) is Some,
    ensures
        rectangular(parsed(s)->Some_0),
        kept_by_text(parsed(s)->Some_0),
{
    let cells = parsed(s)->Some_0;
    let rows = lines(s).skip(HEADER_LINES as int);
    assert forall|x: int, y: int| 0 <= y < cells.len() && 0 <= x < cells[y].len() implies ({
        let c = #[trigger] cells[y][x];
        c.is_opaque() && c.is_quantized()
    }) by {
        assert(row_cells(rows[y]) is Some);
        let ws = words(rows[y]);
        crate::color::lemma_quantized_is_level(channel_value(ws[3 * x])->Some_0);
        crate::color::lemma_quantized_is_level(channel_value(ws[3 * x + 1])->Some_0);
        crate::color::lemma_quantized_is_level(channel_value(ws[3 * x + 2])->Some_0);
    }
}

} // verus!

//! The binary image codec: a grid as a rectangle of RGBA pixels, one pixel for
//! each cell, the rows in reverse order and the background transparent.

use vstd::prelude::*;
use crate::codec::FormatError;
use crate::color::Color;
use crate::grid::{rectangular, Grid};

verus! {

/// The pixel that an unpainted cell is stored as: nothing of any colour, and
/// fully transparent.
pub open spec fn transparent() -> Color {
    Color { r: 0, g: 0, b: 0, a: 0 }
}

/// The pixel that a cell of colour `cell` is stored as: the transparent pixel
/// for the background, and for any other colour its red, green and blue, fully
/// opaque.
pub open spec fn encoded_pixel(cell: Color) -> Color {
    if cell == Color::background() {
        transparent()
    } else {
        Color { r: cell.r, g: cell.g, b: cell.b, a: 255 }
    }
}

/// The colour of the cell that the pixel `pixel` stands for: the background
/// where the pixel is fully transparent, whatever its red, green and blue, and
/// else the pixel's red, green and blue, fully opaque.
pub open spec fn decoded_pixel(pixel: Color) -> Color {
    if pixel.a == 0 {
        Color::background()
    } else {
        Color { r: pixel.r, g: pixel.g, b: pixel.b, a: 255 }
    }
}

/// The rows `rows` in reverse order.
pub open spec fn flipped_rows(rows: Seq<Seq<Color>>) -> Seq<Seq<Color>> {
    Seq::new(rows.len(), |r: int| rows[rows.len() - 1 - r])
}

/// The pixels that the cells `cells` are stored as: row `y` of the grid is
/// row `height - 1 - y` of the image.
pub open spec fn encoded_rows(cells: Seq<Seq<Color>>) -> Seq<Seq<Color>> {
    Seq::new(
        cells.len(),
        |r: int|
            Seq::new(cells[0].len(), |x: int| encoded_pixel(cells[cells.len() - 1 - r][x])),
    )
}

/// The cells that the pixels `pixels` stand for: row `r` of the image is row
/// `height - 1 - r` of the grid.
pub open spec fn decoded_rows(pixels: Seq<Seq<Color>>) -> Seq<Seq<Color>> {
    Seq::new(
        pixels.len(),
        |y: int|
            Seq::new(pixels[0].len(), |x: int| decoded_pixel(pixels[pixels.len() - 1 - y][x])),
    )
}

/// The pixel in column `x` of row `y` of an image `width` pixels wide whose
/// pixels lie in `bytes` row after row, four bytes each: red, green, blue,
/// alpha.
pub open spec fn pixel_at(bytes: Seq<u8>, width: nat, x: int, y: int) -> Color {
    let at = 4 * (y * width + x);
    Color { r: bytes[at], g: bytes[at + 1], b: bytes[at + 2], a: bytes[at + 3] }
}

/// The rows of the image of the given size whose pixels lie in `bytes`.
pub open spec fn rows_of(bytes: Seq<u8>, width: nat, height: nat) -> Seq<Seq<Color>> {
    Seq::new(height, |y: int| Seq::new(width, |x: int| pixel_at(bytes, width, x, y)))
}

/// Whether `bytes` holds exactly the pixels of an image of the given size, and
/// the image has a pixel at all.
pub open spec fn valid_raw(width: nat, height: nat, bytes: Seq<u8>) -> bool {
    width >= 1 && height >= 1 && bytes.len() == 4 * (width * height)
}

/// What `Image::from_file_with_format` of macroquad, asked to find out the
/// format by itself, makes of a file's contents: nothing where it fails, else
/// the width and the height that the image it returns records, and the bytes
/// that it holds.
pub uninterp spec fn decoded_image(contents: Seq<u8>) -> Option<(u16, u16, Seq<u8>)>;

/// An image file's contents, decoded by `Image::from_file_with_format` of
/// macroquad. The contract claims that the call depends on the contents alone:
/// it fails or succeeds, and yields the width, the height and the bytes, as
/// `decoded_image` names them. Nothing is claimed about how the three relate.
#[verifier::external_body]
fn read_image(contents: &[u8]) -> (r: Result<(u16, u16, Vec<u8>), macroquad::Error>)
    ensures
        match r {
            Ok((width, height, bytes)) => decoded_image(contents@) == Some(
                (width, height, bytes@),
            ),
            Err(_) => decoded_image(contents@) is None,
        },
{
    match macroquad::texture::Image::from_file_with_format(contents, None) {
        Ok(image) => Ok((image.width, image.height, image.bytes)),
        Err(e) => Err(e),
    }
}

/// The error with which macroquad's functions fail.
#[verifier::external_type_specification]
#[verifier::external_body]
pub struct ExError(macroquad::Error);

/// The pixel in a column and a row of an image lies among the image's pixels.
proof fn lemma_offset_in_range(width: nat, height: nat, x: int, y: int)
    requires
        0 <= x < width,
        0 <= y < height,
    ensures
        0 <= y * width + x < width * height,
        0 <= y * width,
{
    assert(0 <= y * width) by (nonlinear_arith)
        requires
            0 <= y,
            0 <= width,
    ;
    assert((y + 1) * width <= height * width) by (nonlinear_arith)
        requires
            y + 1 <= height,
            0 <= width,
    ;
    assert((y + 1) * width == y * width + width) by (nonlinear_arith);
    assert(height * width == width * height) by (nonlinear_arith);
}

/// A pixel whose bytes lie in the part of the bytes that a longer sequence
/// shares is the same pixel in both.
proof fn lemma_pixel_kept(before: Seq<u8>, after: Seq<u8>, width: nat, x: int, y: int)
    requires
        0 <= x,
        0 <= y,
        4 * (y * width + x) + 4 <= before.len() <= after.len(),
        forall|i: int| 0 <= i < before.len() ==> after[i] == before[i],
    ensures
        pixel_at(after, width, x, y) == pixel_at(before, width, x, y),
{
    assert(0 <= y * width) by (nonlinear_arith)
        requires
            0 <= y,
            0 <= width,
    ;
}

/// A rectangle of RGBA pixels, at least one pixel wide and one high. Its view
/// is the sequence of its rows; `b@[y][x]` is the pixel in column `x` of row
/// `y`, as a colour.
#[derive(Debug, PartialEq, Eq)]
pub struct PixelBuffer {
    width: usize,
    height: usize,
    bytes: Vec<u8>,
}

impl View for PixelBuffer {
    type V = Seq<Seq<Color>>;

    closed spec fn view(&self) -> Seq<Seq<Color>> {
        rows_of(self.bytes@, self.width as nat, self.height as nat)
    }
}

impl PixelBuffer {
    /// The number of pixels in a row.
    pub closed spec fn spec_width(&self) -> nat {
        self.width as nat
    }

    /// The number of rows.
    pub closed spec fn spec_height(&self) -> nat {
        self.height as nat
    }

    /// The pixels as bytes: row after row, four bytes for each pixel.
    pub closed spec fn spec_bytes(&self) -> Seq<u8> {
        self.bytes@
    }

    /// The invariant of the type: the buffer has a pixel, and its bytes are
    /// those of its pixels.
    #[verifier::type_invariant]
    closed spec fn inv(&self) -> bool {
        valid_raw(self.width as nat, self.height as nat, self.bytes@)
    }

    /// What holds of every buffer: it has a pixel, its bytes are those of its
    /// pixels, and its view shows them row by row. The functions that take or
    /// give a buffer say so of it.
    pub open spec fn wf(&self) -> bool {
        &&& valid_raw(self.spec_width(), self.spec_height(), self.spec_bytes())
        &&& self@ == rows_of(self.spec_bytes(), self.spec_width(), self.spec_height())
    }

    /// The buffer of the given size whose pixels lie in `bytes`, if `bytes`
    /// holds exactly that many pixels and at least one.
    pub fn from_raw(width: usize, height: usize, bytes: Vec<u8>) -> (r: Option<PixelBuffer>)
        ensures
            r is Some <==> valid_raw(width as nat, height as nat, bytes@),
            r matches Some(b) ==> b.wf() && b.spec_width() == width && b.spec_height() == height
                && b.spec_bytes() == bytes@,
    {
        if width == 0 || height == 0 {
            return None;
        }
        let size: Option<usize> = match width.checked_mul(height) {
            Some(pixels) => pixels.checked_mul(4),
            None => None,
        };
        assert(size == if 4 * (width * height) <= usize::MAX {
            Some((4 * (width * height)) as usize)
        } else {
            None
        }) by {
            assert(0 <= width * height) by (nonlinear_arith)
                requires
                    0 <= width,
                    0 <= height,
            ;
        }
        if size == Some(bytes.len()) {
            Some(PixelBuffer { width, height, bytes })
        } else {
            None
        }
    }

    /// The number of pixels in a row.
    pub fn width(&self) -> (w: usize)
        ensures
            self.wf(),
            w == self.spec_width(),
            w >= 1,
    {
        proof {
            use_type_invariant(self);
        }
        self.width
    }

    /// The number of rows.
    pub fn height(&self) -> (h: usize)
        ensures
            self.wf(),
            h == self.spec_height(),
            h >= 1,
    {
        proof {
            use_type_invariant(self);
        }
        self.height
    }

    /// The pixels as bytes: row after row, four bytes for each pixel.
    pub fn into_bytes(self) -> (bytes: Vec<u8>)
        ensures
            self.wf(),
            bytes@ == self.spec_bytes(),
    {
        proof {
            use_type_invariant(&self);
        }
        self.bytes
    }

    /// The pixel in column `x` of row `y`, if the buffer has one there.
    pub fn pixel(&self, x: usize, y: usize) -> (p: Option<Color>)
        ensures
            self.wf(),
            x < self.spec_width() && y < self.spec_height() ==> p == Some(
                self@[y as int][x as int],
            ),
            !(x < self.spec_width() && y < self.spec_height()) ==> p is None,
    {
        proof {
            use_type_invariant(self);
        }
        if x < self.width && y < self.height {
            let len: usize = self.bytes.len();
            proof {
                lemma_offset_in_range(self.width as nat, self.height as nat, x as int, y as int);
                assert(4 * (y * self.width + x) + 4 <= len);
            }
            let at: usize = 4 * (y * self.width + x);
            Some(
                Color {
                    r: self.bytes[at],
                    g: self.bytes[at + 1],
                    b: self.bytes[at + 2],
                    a: self.bytes[at + 3],
                },
            )
        } else {
            None
        }
    }

    /// The same pixels with the rows in reverse order.
    pub fn flipped(&self) -> (b: PixelBuffer)
        ensures
            self.wf(),
            b.wf(),
            b.spec_width() == self.spec_width(),
            b.spec_height() == self.spec_height(),
            b@ == flipped_rows(self@),
    {
        proof {
            use_type_invariant(self);
        }
        let width: usize = self.width;
        let height: usize = self.height;
        let mut bytes: Vec<u8> = Vec::new();
        let mut row: usize = 0;
        while row < height
            invariant
                self.wf(),
                width == self.spec_width(),
                height == self.spec_height(),
                row <= height,
                bytes@.len() == 4 * (row * width),
                forall|x: int, y: int|
                    0 <= x < width && 0 <= y < row ==> #[trigger] pixel_at(
                        bytes@,
                        width as nat,
                        x,
                        y,
                    ) == self@[height - 1 - y][x],
            decreases height - row,
        {
            let from: usize = height - 1 - row;
            let mut x: usize = 0;
            while x < width
                invariant
                    self.wf(),
                    width == self.spec_width(),
                    height == self.spec_height(),
                    row < height,
                    from == height - 1 - row,
                    x <= width,
                    bytes@.len() == 4 * (row * width + x),
                    forall|i: int, y: int|
                        0 <= i < width && 0 <= y < row ==> #[trigger] pixel_at(
                            bytes@,
                            width as nat,
                            i,
                            y,
                        ) == self@[height - 1 - y][i],
                    forall|i: int|
                        0 <= i < x ==> #[trigger] pixel_at(bytes@, width as nat, i, row as int)
                            == self@[from as int][i],
                decreases width - x,
            {
                let pixel: Color = self.pixel(x, from).unwrap();
                let ghost before = bytes@;
                push_pixel(&mut bytes, pixel);
                proof {
                    lemma_pushed_pixel(before, bytes@, pixel, width as nat, x as int, row as int);
                    assert forall|i: int, y: int|
                        0 <= i < width && 0 <= y < row implies #[trigger] pixel_at(
                        bytes@,
                        width as nat,
                        i,
                        y,
                    ) == self@[height - 1 - y][i] by {
                        lemma_rows_before(width as nat, i, y, row as int, x as int);
                        lemma_pixel_kept(before, bytes@, width as nat, i, y);
                    }
                    assert forall|i: int| 0 <= i < x + 1 implies #[trigger] pixel_at(
                        bytes@,
                        width as nat,
                        i,
                        row as int,
                    ) == self@[from as int][i] by {
                        if i < x {
                            lemma_pixel_kept(before, bytes@, width as nat, i, row as int);
                        }
                    }
                    assert(4 * (row * width + x) + 4 == 4 * (row * width + (x + 1)));
                }
                x += 1;
            }
            proof {
                assert(row * width + width == (row + 1) * width) by (nonlinear_arith);
            }
            row += 1;
        }
        proof {
            assert(height * width == width * height) by (nonlinear_arith);
        }
        assert(rows_of(bytes@, width as nat, height as nat) =~~= flipped_rows(self@));
        PixelBuffer { width, height, bytes }
    }
}

/// Appends the four bytes of `pixel` to `bytes`.
fn push_pixel(bytes: &mut Vec<u8>, pixel: Color)
    ensures
        final(bytes)@ == old(bytes)@.push(pixel.r).push(pixel.g).push(pixel.b).push(pixel.a),
{
    bytes.push(pixel.r);
    bytes.push(pixel.g);
    bytes.push(pixel.b);
    bytes.push(pixel.a);
}

/// After the bytes of one more pixel, the bytes before are as they were, and
/// the pixel is the next one of its row.
proof fn lemma_pushed_pixel(
    before: Seq<u8>,
    after: Seq<u8>,
    pixel: Color,
    width: nat,
    x: int,
    y: int,
)
    requires
        0 <= x,
        0 <= y,
        before.len() == 4 * (y * width + x),
        after == before.push(pixel.r).push(pixel.g).push(pixel.b).push(pixel.a),
    ensures
        after.len() == before.len() + 4,
        forall|i: int| 0 <= i < before.len() ==> after[i] == before[i],
        pixel_at(after, width, x, y) == pixel,
{
}

/// The pixels of the rows that are complete lie before those of the row that
/// is being written.
proof fn lemma_rows_before(width: nat, x: int, y: int, row: int, done: int)
    requires
        0 <= x < width,
        0 <= y < row,
        0 <= done,
    ensures
        4 * (y * width + x) + 4 <= 4 * (row * width + done),
{
    assert((y + 1) * width <= row * width) by (nonlinear_arith)
        requires
            y + 1 <= row,
            0 <= width,
    ;
    assert((y + 1) * width == y * width + width) by (nonlinear_arith);
}

/// The pixel that a cell of colour `cell` is stored as.
pub fn encode_pixel(cell: Color) -> (pixel: Color)
    ensures
        pixel == encoded_pixel(cell),
{
    if cell == Color::background() {
        Color { r: 0, g: 0, b: 0, a: 0 }
    } else {
        Color { r: cell.r, g: cell.g, b: cell.b, a: 255 }
    }
}

/// The colour of the cell that the pixel `pixel` stands for.
pub fn decode_pixel(pixel: Color) -> (cell: Color)
    ensures
        cell == decoded_pixel(pixel),
{
    if pixel.a == 0 {
        Color::background()
    } else {
        Color { r: pixel.r, g: pixel.g, b: pixel.b, a: 255 }
    }
}

/// The image of a grid: as wide and as high as the grid, one pixel for each
/// cell, the grid's last row first.
pub fn encode(grid: &Grid) -> (buffer: PixelBuffer)
    ensures
        grid.wf(),
        buffer.wf(),
        buffer.spec_width() == grid.spec_width(),
        buffer.spec_height() == grid.spec_height(),
        buffer@ == encoded_rows(grid@),
{
    let width: usize = grid.width();
    let height: usize = grid.height();
    let mut bytes: Vec<u8> = Vec::new();
    let mut row: usize = 0;
    while row < height
        invariant
            grid.wf(),
            width == grid.spec_width(),
            height == grid.spec_height(),
            row <= height,
            bytes@.len() == 4 * (row * width),
            forall|x: int, y: int|
                0 <= x < width && 0 <= y < row ==> #[trigger] pixel_at(bytes@, width as nat, x, y)
                    == encoded_pixel(grid@[height - 1 - y][x]),
        decreases height - row,
    {
        let from: usize = height - 1 - row;
        let mut x: usize = 0;
        while x < width
            invariant
                grid.wf(),
                width == grid.spec_width(),
                height == grid.spec_height(),
                row < height,
                from == height - 1 - row,
                x <= width,
                bytes@.len() == 4 * (row * width + x),
                forall|i: int, y: int|
                    0 <= i < width && 0 <= y < row ==> #[trigger] pixel_at(
                        bytes@,
                        width as nat,
                        i,
                        y,
                    ) == encoded_pixel(grid@[height - 1 - y][i]),
                forall|i: int|
                    0 <= i < x ==> #[trigger] pixel_at(bytes@, width as nat, i, row as int)
                        == encoded_pixel(grid@[from as int][i]),
            decreases width - x,
        {
            let pixel: Color = encode_pixel(grid.get(x, from).unwrap());
            let ghost before = bytes@;
            push_pixel(&mut bytes, pixel);
            proof {
                lemma_pushed_pixel(before, bytes@, pixel, width as nat, x as int, row as int);
                assert forall|i: int, y: int|
                    0 <= i < width && 0 <= y < row implies #[trigger] pixel_at(
                    bytes@,
                    width as nat,
                    i,
                    y,
                ) == encoded_pixel(grid@[height - 1 - y][i]) by {
                    lemma_rows_before(width as nat, i, y, row as int, x as int);
                    lemma_pixel_kept(before, bytes@, width as nat, i, y);
                }
                assert forall|i: int| 0 <= i < x + 1 implies #[trigger] pixel_at(
                    bytes@,
                    width as nat,
                    i,
                    row as int,
                ) == encoded_pixel(grid@[from as int][i]) by {
                    if i < x {
                        lemma_pixel_kept(before, bytes@, width as nat, i, row as int);
                    }
                }
                assert(4 * (row * width + x) + 4 == 4 * (row * width + (x + 1)));
            }
            x += 1;
        }
        proof {
            assert(row * width + width == (row + 1) * width) by (nonlinear_arith);
        }
        row += 1;
    }
    proof {
        assert(height * width == width * height) by (nonlinear_arith);
    }
    assert(rows_of(bytes@, width as nat, height as nat) =~~= encoded_rows(grid@));
    PixelBuffer { width, height, bytes }
}

/// The grid that an image stands for: as wide and as high as the image, one
/// cell for each pixel, the image's last row first.
pub fn decode(buffer: &PixelBuffer) -> (grid: Grid)
    ensures
        buffer.wf(),
        grid.wf(),
        grid.spec_width() == buffer.spec_width(),
        grid.spec_height() == buffer.spec_height(),
        grid@ == decoded_rows(buffer@),
{
    let width: usize = buffer.width();
    let height: usize = buffer.height();
    let mut rows: Vec<Vec<Color>> = Vec::new();
    let mut y: usize = 0;
    while y < height
        invariant
            buffer.wf(),
            width == buffer.spec_width(),
            height == buffer.spec_height(),
            y <= height,
            rows@.len() == y,
            forall|j: int|
                0 <= j < y ==> (#[trigger] rows@[j])@ == Seq::new(
                    width as nat,
                    |x: int| decoded_pixel(buffer@[height - 1 - j][x]),
                ),
        decreases height - y,
    {
        let from: usize = height - 1 - y;
        let mut row: Vec<Color> = Vec::new();
        let mut x: usize = 0;
        while x < width
            invariant
                buffer.wf(),
                width == buffer.spec_width(),
                height == buffer.spec_height(),
                y < height,
                from == height - 1 - y,
                x <= width,
                row@.len() == x,
                forall|i: int| 0 <= i < x ==> row@[i] == decoded_pixel(buffer@[from as int][i]),
            decreases width - x,
        {
            row.push(decode_pixel(buffer.pixel(x, from).unwrap()));
            x += 1;
        }
        assert(row@ =~= Seq::new(
            width as nat,
            |x: int| decoded_pixel(buffer@[height - 1 - y][x]),
        ));
        rows.push(row);
        y += 1;
    }
    proof {
        assert(crate::grid::rows_view(rows@) =~~= decoded_rows(buffer@));
        assert(rectangular(decoded_rows(buffer@)));
    }
    Grid::from_rows(rows).unwrap()
}

/// The cells that an image file with the given contents stands for: its
/// pixels as `decoded_image` names them, read as `decoded_rows` says. There
/// are none where the contents cannot be decoded, or decode to something that
/// is no image with at least one pixel.
pub open spec fn file_cells(contents: Seq<u8>) -> Option<Seq<Seq<Color>>> {
    match decoded_image(contents) {
        Some((width, height, bytes)) => if valid_raw(width as nat, height as nat, bytes) {
            Some(decoded_rows(rows_of(bytes, width as nat, height as nat)))
        } else {
            None
        },
        None => None,
    }
}

/// The grid that an image file with the given contents stands for. The
/// contents are decoded to pixels, and the pixels to cells as `decode` does.
/// Contents that cannot be decoded, or that decode to no image, are refused.
pub fn decode_file(contents: &[u8]) -> (r: Result<Grid, FormatError>)
    ensures
        match file_cells(contents@) {
            Some(cells) => r is Ok && r->Ok_0.wf() && r->Ok_0@ == cells,
            None => r is Err,
        },
{
    match read_image(contents) {
        Ok((width, height, bytes)) => {
            match PixelBuffer::from_raw(width as usize, height as usize, bytes) {
                Some(buffer) => Ok(decode(&buffer)),
                None => Err(FormatError),
            }
        },
        Err(_) => Err(FormatError),
    }
}

/// Whether an image keeps every cell of `cells` as it is: each is opaque.
pub open spec fn kept_by_image(cells: Seq<Seq<Color>>) -> bool {
    forall|x: int, y: int|
        0 <= y < cells.len() && 0 <= x < cells[y].len() ==> (#[trigger] cells[y][x]).is_opaque()
}

/// An opaque cell, stored as a pixel and read back, is the same cell. The
/// background goes through the transparent pixel and comes back as itself.
pub proof fn lemma_pixel_round_trip(cell: Color)
    requires
        cell.is_opaque(),
    ensures
        decoded_pixel(encoded_pixel(cell)) == cell,
{
}

/// The round trip through an image: a grid of opaque cells, stored and read
/// back, is the same grid. Reading undoes the reversal of the rows exactly.
pub proof fn lemma_round_trip(cells: Seq<Seq<Color>>)
    requires
        rectangular(cells),
        kept_by_image(cells),
    ensures
        decoded_rows(encoded_rows(cells)) == cells,
{
    let pixels = encoded_rows(cells);
    let back = decoded_rows(pixels);
    assert(back.len() == cells.len());
    assert forall|y: int| 0 <= y < cells.len() implies back[y] =~= cells[y] by {
        assert(cells[y].len() == cells[0].len());
        assert forall|x: int| 0 <= x < cells[y].len() implies back[y][x] == cells[y][x] by {
            assert(cells[y][x].is_opaque());
            lemma_pixel_round_trip(cells[y][x]);
        }
    }
    assert(back =~= cells);
}

/// Reversing the rows twice gives the rows back.
pub proof fn lemma_flipped_twice(rows: Seq<Seq<Color>>)
    ensures
        flipped_rows(flipped_rows(rows)) == rows,
{
    assert(flipped_rows(flipped_rows(rows)) =~= rows);
}

/// What is read from an image is kept by an image: every cell is opaque.
pub proof fn lemma_decoded_is_kept(pixels: Seq<Seq<Color>>)
    requires
        rectangular(pixels),
    ensures
        rectangular(decoded_rows(pixels)),
        kept_by_image(decoded_rows(pixels)),
{
}

} // verus!

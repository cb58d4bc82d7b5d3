//! What the two codecs share: the failure of a decoder, the choice between the
//! formats, and the grid that a session begins with.

use vstd::prelude::*;
use crate::color::Color;
use crate::grid::{filled, Grid};

verus! {

/// The failure of a decoder: the contents handed to it are not a file of its
/// format.
#[derive(Clone, Copy, Debug, PartialEq, Eq, Structural)]
pub struct FormatError;

/// The failure to read a file: it is not there, or it cannot be read.
#[derive(Clone, Copy, Debug, PartialEq, Eq, Structural)]
pub struct IoError;

/// The width and the height of the grid that stands in for a file that is not
/// there.
pub const DEFAULT_SIDE: usize = 8;

/// A file format.
#[derive(Clone, Copy, Debug, PartialEq, Eq, Structural)]
pub enum Format {
    /// The text of decimal numbers, kept in files that end in `.ppm`.
    TextRgb,
    /// The image of RGBA pixels, kept in files that end in `.png`.
    BinaryImage,
}

impl Format {
    /// The extension of the files of this format.
    pub open spec fn spec_extension(self) -> Seq<char> {
        match self {
            Format::TextRgb => "ppm"@,
            Format::BinaryImage => "png"@,
        }
    }

    /// The extension of the files of this format.
    pub fn extension(self) -> (ext: &'static str)
        ensures
            ext@ == self.spec_extension(),
    {
        match self {
            Format::TextRgb => "ppm",
            Format::BinaryImage => "png",
        }
    }

    /// The cells that a file of this format with the given contents stands
    /// for, if it stands for any.
    pub open spec fn cells_of(self, contents: Seq<u8>) -> Option<Seq<Seq<Color>>> {
        match self {
            Format::TextRgb => crate::text_rgb::parsed(contents),
            Format::BinaryImage => crate::binary_image::file_cells(contents),
        }
    }

    /// The grid that a file of this format with the given contents stands for,
    /// or the failure where the contents are no such file.
    pub fn decode(self, contents: &[u8]) -> (r: Result<Grid, FormatError>)
        ensures
            match self.cells_of(contents@) {
                Some(cells) => r is Ok && r->Ok_0.wf() && r->Ok_0@ == cells,
                None => r is Err,
            },
    {
        match self {
            Format::TextRgb => crate::text_rgb::decode(contents),
            Format::BinaryImage => crate::binary_image::decode_file(contents),
        }
    }
}

/// The cells of the grid that stands in for a file that is not there: eight
/// by eight, all background.
pub open spec fn default_cells() -> Seq<Seq<Color>> {
    filled(DEFAULT_SIDE as nat, DEFAULT_SIDE as nat, Color::background())
}

/// The grid that a session on a file begins with. `source` holds the file's
/// contents, or the failure to read them. A file that is not there or cannot
/// be read is no failure of the load: the session begins with the default
/// grid. Contents that are no file of the format are.
pub fn load(format: Format, source: Result<&[u8], IoError>) -> (r: Result<Grid, FormatError>)
    ensures
        match source {
            Err(_) => r is Ok && r->Ok_0.wf() && r->Ok_0@ == default_cells(),
            Ok(contents) => match format.cells_of(contents@) {
                Some(cells) => r is Ok && r->Ok_0.wf() && r->Ok_0@ == cells,
                None => r is Err,
            },
        },
{
    match source {
        Err(_) => Ok(Grid::blank(DEFAULT_SIDE, DEFAULT_SIDE)),
        Ok(contents) => format.decode(contents),
    }
}

/// The grid that a session begins with after a load, and the failure to
/// report: a failed load leaves the session with the default grid.
pub fn recover(loaded: Result<Grid, FormatError>) -> (r: (Grid, Option<FormatError>))
    ensures
        match loaded {
            Ok(grid) => r.0@ == grid@ && r.1 is None,
            Err(e) => r.0@ == default_cells() && r.1 == Some(e),
        },
{
    match loaded {
        Ok(grid) => (grid, None),
        Err(e) => (Grid::blank(DEFAULT_SIDE, DEFAULT_SIDE), Some(e)),
    }
}

} // verus!

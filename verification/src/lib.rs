//! The core of a pixel-art sprite editor.
//!
//! A sprite is a [`grid::Grid`] of coloured cells. The pointer paints it: a
//! [`geometry::CellGeometry`] tells which cell a position on the screen is
//! over, and a [`paint::PaintController`] toggles that cell on a press. An
//! [`editor::Editor`] holds the grid of a session beside the grid it began
//! with, and the selected colour. Two codecs turn a grid into the contents of
//! a file and back: [`text_rgb`], a text of decimal numbers, and
//! [`binary_image`], a rectangle of RGBA pixels. [`config`] reads the command
//! line, and [`glyph`] sets the text that the editor shows.
//!
//! The library draws nothing and reads no file. Positions are whole pixels and
//! colours are bytes; a window on the grid hands both in and takes them out.

pub mod binary_image;
pub mod codec;
pub mod color;
pub mod config;
pub mod editor;
pub mod geometry;
pub mod glyph;
pub mod grid;
pub mod paint;
pub mod text;
pub mod text_rgb;

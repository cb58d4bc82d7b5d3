use sprite_editor::binary_image::{decode, decode_file, encode, PixelBuffer};
use sprite_editor::codec::FormatError;
use sprite_editor::color::Color;
use sprite_editor::grid::Grid;

const RED: Color = Color { r: 255, g: 0, b: 0, a: 255 };
const BLUE: Color = Color { r: 0, g: 0, b: 255, a: 255 };

/// A PNG file of two rows of two pixels: red and a transparent grey above,
/// blue and a half-transparent dark pixel below.
const TWO_BY_TWO: [u8; 82] = [
    137, 80, 78, 71, 13, 10, 26, 10, 0, 0, 0, 13, 73, 72, 68, 82, 0, 0, 0, 2, 0, 0, 0, 2, 8, 6,
    0, 0, 0, 114, 182, 13, 36, 0, 0, 0, 25, 73, 68, 65, 84, 120, 218, 99, 248, 207, 192, 240,
    159, 147, 147, 147, 1, 8, 254, 255, 103, 100, 98, 110, 0, 0, 43, 188, 4, 158, 170, 255, 59,
    159, 0, 0, 0, 0, 73, 69, 78, 68, 174, 66, 96, 130,
];

#[test]
fn decode_file_reads_png_pixels() {
    let grid = decode_file(&TWO_BY_TWO).unwrap();
    assert_eq!(grid.width(), 2);
    assert_eq!(grid.height(), 2);
    // The file's last row is the grid's first.
    assert_eq!(grid.get(0, 0), Ok(BLUE));
    assert_eq!(grid.get(1, 0), Ok(Color { r: 1, g: 2, b: 3, a: 255 }));
    assert_eq!(grid.get(0, 1), Ok(RED));
    assert_eq!(grid.get(1, 1), Ok(Color::background()));
}

#[test]
fn decode_file_refuses_what_is_no_image() {
    assert_eq!(decode_file(b"P3\n1 1\n255\n\n0 0 0 \n"), Err(FormatError));
    assert_eq!(decode_file(&[]), Err(FormatError));
    assert_eq!(decode_file(&TWO_BY_TWO[..40]), Err(FormatError));
}

#[test]
fn encode_flips_rows_and_hides_background() {
    let mut grid = Grid::blank(2, 3);
    grid.set(0, 0, RED).unwrap();
    grid.set(1, 2, BLUE).unwrap();
    let buffer = encode(&grid);
    assert_eq!(buffer.width(), 2);
    assert_eq!(buffer.height(), 3);
    assert_eq!(buffer.pixel(0, 2), Some(RED));
    assert_eq!(buffer.pixel(1, 0), Some(BLUE));
    assert_eq!(buffer.pixel(1, 2), Some(Color { r: 0, g: 0, b: 0, a: 0 }));
    assert_eq!(buffer.pixel(2, 0), None);
    assert_eq!(
        buffer.into_bytes(),
        vec![
            0, 0, 0, 0, 0, 0, 255, 255, //
            0, 0, 0, 0, 0, 0, 0, 0, //
            255, 0, 0, 255, 0, 0, 0, 0,
        ]
    );
}

#[test]
fn vertical_flip_round_trip() {
    let mut grid = Grid::blank(3, 4);
    for x in 0..3 {
        grid.set(x, 0, RED).unwrap();
        grid.set(x, 3, BLUE).unwrap();
    }
    let back = decode(&encode(&grid));
    for x in 0..3 {
        assert_eq!(back.get(x, 0), Ok(RED));
        assert_eq!(back.get(x, 3), Ok(BLUE));
    }
    assert_eq!(back, grid);
}

#[test]
fn from_raw_checks_the_length() {
    assert!(PixelBuffer::from_raw(1, 1, vec![1, 2, 3, 4]).is_some());
    assert!(PixelBuffer::from_raw(1, 1, vec![1, 2, 3]).is_none());
    assert!(PixelBuffer::from_raw(0, 1, vec![]).is_none());
    assert!(PixelBuffer::from_raw(usize::MAX, 2, vec![0; 8]).is_none());
}

use sprite_editor::binary_image::{decode as decode_image, encode as encode_image, PixelBuffer};
use sprite_editor::codec::{load, recover, Format, FormatError, IoError, DEFAULT_SIDE};
use sprite_editor::color::{channel_of_level, level_of_channel, quantize_channel, Color};
use sprite_editor::grid::Grid;

#[test]
fn missing_file_loads_as_the_default_blank_grid() {
    for format in [Format::TextRgb, Format::BinaryImage] {
        let grid = load(format, Err(IoError)).unwrap();
        assert_eq!(grid.width(), 8);
        assert_eq!(grid.height(), 8);
        assert_eq!(grid, Grid::blank(8, 8));
    }
    assert_eq!(DEFAULT_SIDE, 8);
}

#[test]
fn load_decodes_what_is_there() {
    let grid = load(Format::TextRgb, Ok(b"P3\n1 1\n255\n\n255 255 255 \n")).unwrap();
    assert_eq!(grid, Grid::create(1, 1, Color { r: 255, g: 255, b: 255, a: 255 }));
}

#[test]
fn load_fails_on_malformed_contents() {
    assert_eq!(load(Format::TextRgb, Ok(b"P3\n1 1\n")), Err(FormatError));
    assert_eq!(load(Format::BinaryImage, Ok(b"P3\n1 1\n255\n\n1 2 3 \n")), Err(FormatError));
    assert_eq!(load(Format::BinaryImage, Ok(b"")), Err(FormatError));
}

#[test]
fn failed_load_falls_back_to_the_default_grid() {
    let (grid, failure) = recover(load(Format::TextRgb, Ok(b"no file of the format")));
    assert_eq!(grid, Grid::blank(8, 8));
    assert_eq!(failure, Some(FormatError));
    let (grid, failure) = recover(Ok(Grid::blank(2, 3)));
    assert_eq!(grid, Grid::blank(2, 3));
    assert_eq!(failure, None);
}

#[test]
fn formats_have_their_extensions() {
    assert_eq!(Format::TextRgb.extension(), "ppm");
    assert_eq!(Format::BinaryImage.extension(), "png");
}

#[test]
fn format_decode_picks_the_codec() {
    let text = b"P3\n1 1\n255\n\n1 2 3 \n";
    assert!(Format::TextRgb.decode(text).is_ok());
    assert_eq!(Format::BinaryImage.decode(text), Err(FormatError));
}

#[test]
fn image_round_trip_keeps_opaque_cells() {
    let mut rows = Vec::new();
    for y in 0..16u8 {
        let mut row = Vec::new();
        for x in 0..16u8 {
            row.push(Color { r: 16 * y + x, g: x, b: 255 - y, a: 255 });
        }
        rows.push(row);
    }
    rows[3][4] = Color::background();
    let grid = Grid::from_rows(rows).unwrap();
    assert_eq!(decode_image(&encode_image(&grid)), grid);
}

#[test]
fn image_round_trip_makes_every_cell_opaque() {
    let grid = Grid::create(1, 1, Color { r: 10, g: 20, b: 30, a: 128 });
    let back = decode_image(&encode_image(&grid));
    assert_eq!(back.get(0, 0), Ok(Color { r: 10, g: 20, b: 30, a: 255 }));
}

#[test]
fn transparent_pixel_decodes_as_background_whatever_its_color() {
    let buffer = PixelBuffer::from_raw(2, 1, vec![200, 100, 50, 0, 200, 100, 50, 1]).unwrap();
    let grid = decode_image(&buffer);
    assert_eq!(grid.get(0, 0), Ok(Color::background()));
    assert_eq!(grid.get(1, 0), Ok(Color { r: 200, g: 100, b: 50, a: 255 }));
}

#[test]
fn flipped_reverses_the_rows() {
    let buffer = PixelBuffer::from_raw(1, 3, vec![1, 1, 1, 1, 2, 2, 2, 2, 3, 3, 3, 3]).unwrap();
    let flipped = buffer.flipped();
    assert_eq!(flipped.width(), 1);
    assert_eq!(flipped.height(), 3);
    assert_eq!(flipped.pixel(0, 0), Some(Color { r: 3, g: 3, b: 3, a: 3 }));
    assert_eq!(flipped.flipped(), buffer);
    assert_eq!(flipped.into_bytes(), vec![3, 3, 3, 3, 2, 2, 2, 2, 1, 1, 1, 1]);
}

#[test]
fn quantize_brings_a_channel_to_the_nearest_level() {
    assert_eq!(quantize_channel(0), 0);
    assert_eq!(quantize_channel(1), 0);
    assert_eq!(quantize_channel(2), 3);
    assert_eq!(quantize_channel(127), 128);
    assert_eq!(quantize_channel(128), 128);
    assert_eq!(quantize_channel(200), 199);
    assert_eq!(quantize_channel(254), 255);
    assert_eq!(quantize_channel(255), 255);
    for v in 0..=255u8 {
        let q = quantize_channel(v);
        assert_eq!(quantize_channel(q), q);
        assert!((q as i32 - v as i32).abs() <= 1);
    }
}

#[test]
fn color_quantize_keeps_the_alpha() {
    let c = Color { r: 200, g: 100, b: 50, a: 77 };
    assert_eq!(c.quantize(), Color { r: 199, g: 99, b: 51, a: 77 });
    assert_eq!(Color::rgb(1, 2, 3), Color { r: 1, g: 2, b: 3, a: 255 });
}

#[test]
fn lighten_takes_a_fifth_of_the_opacity() {
    assert_eq!(Color::rgb(9, 8, 7).lighten(), Color { r: 9, g: 8, b: 7, a: 204 });
    assert_eq!(Color { r: 9, g: 8, b: 7, a: 26 }.lighten(), Color { r: 9, g: 8, b: 7, a: 20 });
    assert_eq!(Color { r: 9, g: 8, b: 7, a: 0 }.lighten(), Color { r: 9, g: 8, b: 7, a: 0 });
}

#[test]
fn levels_round_to_the_nearest_channel_value() {
    assert_eq!(channel_of_level(0), Some(0));
    assert_eq!(channel_of_level(1), Some(3));
    assert_eq!(channel_of_level(10), Some(26));
    assert_eq!(channel_of_level(50), Some(128));
    assert_eq!(channel_of_level(78), Some(199));
    assert_eq!(channel_of_level(100), Some(255));
    assert_eq!(channel_of_level(101), None);
    assert_eq!(level_of_channel(0), 0);
    assert_eq!(level_of_channel(1), 0);
    assert_eq!(level_of_channel(2), 1);
    assert_eq!(level_of_channel(127), 50);
    assert_eq!(level_of_channel(200), 78);
    assert_eq!(level_of_channel(255), 100);
    for k in 0..=100 {
        assert_eq!(level_of_channel(channel_of_level(k).unwrap()), k);
    }
}

#[test]
fn color_from_levels_wants_hundredths() {
    assert_eq!(
        Color::from_levels(78, 48, 100, 100),
        Some(Color { r: 199, g: 122, b: 255, a: 255 })
    );
    assert_eq!(Color::from_levels(100, 0, 100, 10), Some(Color { r: 255, g: 0, b: 255, a: 26 }));
    assert_eq!(Color::from_levels(101, 0, 0, 100), None);
    assert_eq!(Color::from_levels(0, 0, 0, 255), None);
}

use sprite_editor::codec::FormatError;
use sprite_editor::color::Color;
use sprite_editor::grid::Grid;
use sprite_editor::text::{parse_channel, split, split_words, Separator};
use sprite_editor::text_rgb::{decode, encode, parse_row};

fn rgb(r: u8, g: u8, b: u8) -> Color {
    Color { r, g, b, a: 255 }
}

#[test]
fn encode_writes_header_and_rows() {
    let mut grid = Grid::blank(2, 3);
    grid.set(0, 0, rgb(255, 0, 0)).unwrap();
    grid.set(1, 2, rgb(12, 199, 7)).unwrap();
    let text = encode(&grid);
    assert_eq!(
        String::from_utf8(text).unwrap(),
        "P3\n2 3\n255\n\n255 0 0 0 0 0 \n0 0 0 0 0 0 \n0 0 0 12 199 7 \n"
    );
}

#[test]
fn encode_writes_large_sizes_in_decimal() {
    let grid = Grid::blank(120, 1);
    let text = encode(&grid);
    assert!(text.starts_with(b"P3\n120 1\n255\n\n0 0 0 0 0 0 "));
    assert_eq!(text.len(), 14 + 120 * 6 + 1);
}

#[test]
fn encode_leaves_the_alpha_out() {
    let grid = Grid::create(1, 1, Color { r: 1, g: 2, b: 3, a: 77 });
    assert_eq!(encode(&grid), b"P3\n1 1\n255\n\n1 2 3 \n".to_vec());
}

#[test]
fn decode_reads_rows_top_down() {
    let grid = decode(b"P3\n2 2\n255\n\n255 0 0 0 255 0 \n0 0 255 0 0 0 \n").unwrap();
    assert_eq!(grid.width(), 2);
    assert_eq!(grid.height(), 2);
    assert_eq!(grid.get(0, 0), Ok(rgb(255, 0, 0)));
    assert_eq!(grid.get(1, 0), Ok(rgb(0, 255, 0)));
    assert_eq!(grid.get(0, 1), Ok(rgb(0, 0, 255)));
    assert_eq!(grid.get(1, 1), Ok(Color::background()));
}

#[test]
fn decode_quantizes_to_hundredths() {
    // 200 / 255 is 0.78 to two places, and 0.78 * 255 is 199 to the nearest.
    let grid = decode(b"P3\n1 1\n255\n\n200 1 128 \n").unwrap();
    assert_eq!(grid.get(0, 0), Ok(rgb(199, 0, 128)));
    let grid = decode(b"P3\n1 1\n255\n\n254 2 127 \n").unwrap();
    assert_eq!(grid.get(0, 0), Ok(rgb(255, 3, 128)));
}

#[test]
fn decode_takes_any_blanks_between_numbers() {
    let with_trailing = decode(b"P3\n1 2\n255\n\n1 2 3 \n4 5 6 \n").unwrap();
    let without = decode(b"P3\n1 2\n255\n\n1 2 3\n4 5 6").unwrap();
    let loose = decode(b"P3\n1 2\n255\n\n  1\t2   3\r\n4 5 6\r\n").unwrap();
    assert_eq!(with_trailing, without);
    assert_eq!(with_trailing, loose);
    assert_eq!(without.get(0, 0), Ok(rgb(0, 3, 3)));
    assert_eq!(without.get(0, 1), Ok(rgb(5, 5, 5)));
}

#[test]
fn decode_does_not_read_the_header() {
    let grid = decode(b"anything\nat all\n\n# here\n10 20 30\n").unwrap();
    assert_eq!(grid.width(), 1);
    assert_eq!(grid.height(), 1);
    assert_eq!(grid.get(0, 0), Ok(rgb(10, 20, 31)));
}

#[test]
fn decode_fails_on_fewer_than_four_header_lines() {
    assert_eq!(decode(b""), Err(FormatError));
    assert_eq!(decode(b"P3\n"), Err(FormatError));
    assert_eq!(decode(b"P3\n1 1\n255\n"), Err(FormatError));
    assert_eq!(decode(b"P3\n1 1\n255"), Err(FormatError));
}

#[test]
fn decode_fails_on_no_rows() {
    assert_eq!(decode(b"P3\n1 1\n255\n\n"), Err(FormatError));
    assert_eq!(decode(b"P3\n1 1\n255\n\n\n"), Err(FormatError));
}

#[test]
fn decode_fails_on_a_row_that_is_no_multiple_of_three() {
    assert_eq!(decode(b"P3\n1 1\n255\n\n1 2 \n"), Err(FormatError));
    assert_eq!(decode(b"P3\n1 1\n255\n\n1 2 3 4 \n"), Err(FormatError));
    assert_eq!(decode(b"P3\n2 2\n255\n\n1 2 3 4 5 6 \n1 2 3 4 5 \n"), Err(FormatError));
}

#[test]
fn decode_fails_on_what_is_no_channel_value() {
    assert_eq!(decode(b"P3\n1 1\n255\n\n1 2 256 \n"), Err(FormatError));
    assert_eq!(decode(b"P3\n1 1\n255\n\n1 2 -3 \n"), Err(FormatError));
    assert_eq!(decode(b"P3\n1 1\n255\n\n1 2 x \n"), Err(FormatError));
    assert_eq!(decode(b"P3\n1 1\n255\n\n1 2 0003 \n"), Err(FormatError));
    assert_eq!(decode(b"P3\n1 1\n255\n\n1 2 3.0 \n"), Err(FormatError));
}

#[test]
fn decode_fails_on_rows_of_different_widths() {
    assert_eq!(decode(b"P3\n2 2\n255\n\n1 2 3 4 5 6 \n1 2 3 \n"), Err(FormatError));
    assert_eq!(decode(b"P3\n1 2\n255\n\n1 2 3 \n\n1 2 3 \n"), Err(FormatError));
    assert_eq!(decode(b"P3\n1 1\n255\n\n1 2 3 \n\n"), Err(FormatError));
}

#[test]
fn text_round_trip_keeps_a_quantized_grid() {
    let mut grid = Grid::blank(3, 2);
    // 199, 122 and 255 are 0.78, 0.48 and 1 of full intensity.
    grid.set(0, 0, rgb(199, 122, 255)).unwrap();
    grid.set(2, 0, rgb(3, 26, 128)).unwrap();
    grid.set(1, 1, rgb(255, 255, 255)).unwrap();
    assert_eq!(decode(&encode(&grid)), Ok(grid));
}

#[test]
fn text_round_trip_keeps_every_level() {
    let mut rows = Vec::new();
    for k in 0..101u32 {
        let level = ((255 * k + 50) / 100) as u8;
        let other = ((255 * (100 - k) + 50) / 100) as u8;
        rows.push(vec![rgb(level, 0, level), rgb(0, level, other)]);
    }
    let grid = Grid::from_rows(rows).unwrap();
    assert_eq!(grid.get(0, 10), Ok(rgb(26, 0, 26)));
    assert_eq!(grid.get(1, 10), Ok(rgb(0, 26, 230)));
    assert_eq!(decode(&encode(&grid)), Ok(grid));
}

#[test]
fn text_round_trip_snaps_what_is_between_levels() {
    let grid = Grid::create(1, 1, rgb(200, 100, 50));
    let once = decode(&encode(&grid)).unwrap();
    assert_eq!(once.get(0, 0), Ok(rgb(199, 99, 51)));
    let twice = decode(&encode(&once)).unwrap();
    assert_eq!(twice, once);
}

#[test]
fn lines_end_at_newlines() {
    assert_eq!(split(b"", Separator::Newline), Vec::<Vec<u8>>::new());
    assert_eq!(split(b"a", Separator::Newline), vec![b"a".to_vec()]);
    assert_eq!(split(b"a\n", Separator::Newline), vec![b"a".to_vec()]);
    assert_eq!(split(b"a\n\nb", Separator::Newline), vec![b"a".to_vec(), vec![], b"b".to_vec()]);
    assert_eq!(split(b"\n", Separator::Newline), vec![Vec::<u8>::new()]);
    assert_eq!(split(b"a b\nc", Separator::Newline), vec![b"a b".to_vec(), b"c".to_vec()]);
}

#[test]
fn words_stand_between_blanks() {
    assert_eq!(split_words(b""), Vec::<Vec<u8>>::new());
    assert_eq!(split_words(b"  \t "), Vec::<Vec<u8>>::new());
    assert_eq!(split_words(b"12 7"), vec![b"12".to_vec(), b"7".to_vec()]);
    assert_eq!(split_words(b" 12\t\t7 \r"), vec![b"12".to_vec(), b"7".to_vec()]);
}

#[test]
fn channel_values_are_up_to_three_digits_up_to_255() {
    assert_eq!(parse_channel(&b"0".to_vec()), Some(0));
    assert_eq!(parse_channel(&b"9".to_vec()), Some(9));
    assert_eq!(parse_channel(&b"255".to_vec()), Some(255));
    assert_eq!(parse_channel(&b"007".to_vec()), Some(7));
    assert_eq!(parse_channel(&b"256".to_vec()), None);
    assert_eq!(parse_channel(&b"999".to_vec()), None);
    assert_eq!(parse_channel(&b"1000".to_vec()), None);
    assert_eq!(parse_channel(&b"".to_vec()), None);
    assert_eq!(parse_channel(&b"1a".to_vec()), None);
    assert_eq!(parse_channel(&b"+1".to_vec()), None);
}

#[test]
fn row_is_three_channel_values_for_each_cell() {
    assert_eq!(parse_row(&b"255 0 0 0 0 255".to_vec()), Some(vec![rgb(255, 0, 0), rgb(0, 0, 255)]));
    assert_eq!(parse_row(&b"".to_vec()), Some(vec![]));
    assert_eq!(parse_row(&b"1 2".to_vec()), None);
    assert_eq!(parse_row(&b"1 2 300".to_vec()), None);
}

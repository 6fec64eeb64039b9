use palettize::color::{distance_sq, from_str, hex_digit, Color, ColorError};
use palettize::matcher::{nearest_color, nearest_index, quantize_pixels};
use palettize::palette::{parse_colors, parse_palette, Palette, PaletteError};
use palettize::pixmap::{quantize, Image};

fn rgb(r: u8, g: u8, b: u8) -> Color {
    Color { r, g, b }
}

fn palette(colors: Vec<Color>) -> Palette {
    Palette::new(colors).unwrap()
}

fn lines(records: &[&str]) -> Vec<String> {
    records.iter().map(|s| s.to_string()).collect()
}

fn sample_pixels(n: usize) -> Vec<u8> {
    let mut v = Vec::new();
    for i in 0..n {
        v.push((i * 37 % 256) as u8);
        v.push((i * 91 % 256) as u8);
        v.push((i * 13 % 256) as u8);
        v.push((i * 7 % 256) as u8);
    }
    v
}

#[test]
fn hex_digits_in_both_cases() {
    assert_eq!(hex_digit(b'0'), Some(0));
    assert_eq!(hex_digit(b'9'), Some(9));
    assert_eq!(hex_digit(b'a'), Some(10));
    assert_eq!(hex_digit(b'F'), Some(15));
    assert_eq!(hex_digit(b'g'), None);
    assert_eq!(hex_digit(b'+'), None);
}

#[test]
fn reads_a_record() {
    assert_eq!(from_str("#FF8000"), Ok(rgb(255, 128, 0)));
    assert_eq!(from_str("#0a1B2c"), Ok(rgb(10, 27, 44)));
    assert_eq!(from_str("#000000"), Ok(rgb(0, 0, 0)));
}

#[test]
fn reads_only_the_fixed_offsets() {
    assert_eq!(from_str("#123456789"), Ok(rgb(0x12, 0x34, 0x56)));
}

#[test]
fn rejects_an_invalid_digit() {
    assert_eq!(from_str("#GG0000"), Err(ColorError::InvalidDigit { offset: 1 }));
    assert_eq!(from_str("#00000z"), Err(ColorError::InvalidDigit { offset: 6 }));
    assert_eq!(from_str("#+F0000"), Err(ColorError::InvalidDigit { offset: 1 }));
}

#[test]
fn rejects_a_short_record() {
    assert_eq!(from_str("#FFF"), Err(ColorError::OutOfRange { len: 4 }));
    assert_eq!(from_str(""), Err(ColorError::OutOfRange { len: 0 }));
    assert_eq!(from_str("#FFFFF"), Err(ColorError::OutOfRange { len: 6 }));
}

#[test]
fn parses_colors_in_order() {
    let got = parse_colors(&lines(&["#FF0000", "#00ff00", "#0000FF"])).unwrap();
    assert_eq!(got, vec![rgb(255, 0, 0), rgb(0, 255, 0), rgb(0, 0, 255)]);
    assert_eq!(parse_colors(&lines(&[])).unwrap(), vec![]);
}

#[test]
fn malformed_color_line_is_reported() {
    let r = parse_colors(&lines(&["#000000", "#GG0000", "#zz0000"]));
    assert_eq!(
        r,
        Err(PaletteError::MalformedColor { line: 1, reason: ColorError::InvalidDigit { offset: 1 } })
    );
    let r = parse_palette(&lines(&["#GG0000"]));
    assert!(matches!(
        r,
        Err(PaletteError::MalformedColor { line: 0, reason: ColorError::InvalidDigit { offset: 1 } })
    ));
}

#[test]
fn empty_palette_is_rejected() {
    assert!(matches!(Palette::new(vec![]), Err(PaletteError::EmptyPalette)));
    assert!(matches!(parse_palette(&lines(&[])), Err(PaletteError::EmptyPalette)));
    let p = parse_palette(&lines(&["#102030"])).unwrap();
    assert_eq!(p.len(), 1);
    assert_eq!(p.get(0), rgb(0x10, 0x20, 0x30));
    assert_eq!(p.colors(), &vec![rgb(0x10, 0x20, 0x30)]);
}

#[test]
fn distance_of_a_three_four_five_triangle() {
    let d = distance_sq(rgb(0, 0, 0), rgb(3, 4, 0));
    assert_eq!(d, 25);
    assert_eq!((d as f32).sqrt(), 5.0);
}

#[test]
fn distance_is_symmetric_and_exact() {
    assert_eq!(distance_sq(rgb(255, 0, 10), rgb(0, 255, 0)), 255 * 255 * 2 + 100);
    assert_eq!(distance_sq(rgb(0, 255, 0), rgb(255, 0, 10)), 255 * 255 * 2 + 100);
    assert_eq!(distance_sq(rgb(7, 7, 7), rgb(7, 7, 7)), 0);
}

#[test]
fn nearest_picks_the_closest() {
    let p = palette(vec![rgb(0, 0, 0), rgb(255, 255, 255), rgb(255, 0, 0)]);
    assert_eq!(nearest_color(&p, rgb(200, 30, 20)), rgb(255, 0, 0));
    assert_eq!(nearest_color(&p, rgb(200, 200, 190)), rgb(255, 255, 255));
    assert_eq!(nearest_index(&p, rgb(10, 10, 10)), 0);
}

#[test]
fn tie_goes_to_the_first_entry() {
    let p = palette(vec![rgb(10, 0, 0), rgb(0, 10, 0)]);
    assert_eq!(nearest_index(&p, rgb(0, 0, 0)), 0);
    let q = palette(vec![rgb(0, 10, 0), rgb(10, 0, 0)]);
    assert_eq!(nearest_index(&q, rgb(0, 0, 0)), 0);
    assert_eq!(nearest_color(&q, rgb(0, 0, 0)), rgb(0, 10, 0));
    let r = palette(vec![rgb(50, 50, 50), rgb(0, 0, 10), rgb(10, 0, 0)]);
    assert_eq!(nearest_index(&r, rgb(0, 0, 0)), 1);
}

#[test]
fn pixels_keep_alpha_and_trailing_bytes() {
    let p = palette(vec![rgb(0, 0, 0), rgb(255, 255, 255)]);
    let mut buf = vec![250, 240, 230, 17, 5, 6, 7, 200, 99, 98];
    quantize_pixels(&p, &mut buf);
    assert_eq!(buf, vec![255, 255, 255, 17, 0, 0, 0, 200, 99, 98]);
}

#[test]
fn single_entry_palette_paints_everything() {
    let entry = rgb(12, 34, 56);
    let p = palette(vec![entry]);
    let img = Image::from_rgba(5, 3, sample_pixels(15)).unwrap();
    let out = quantize(&p, &img);
    for (k, px) in out.as_rgba().chunks(4).enumerate() {
        assert_eq!(&px[..3], &[12, 34, 56]);
        assert_eq!(px[3], img.as_rgba()[4 * k + 3]);
    }
}

#[test]
fn output_colors_come_from_the_palette() {
    let colors = vec![rgb(0, 0, 0), rgb(255, 0, 0), rgb(0, 128, 255), rgb(240, 240, 240)];
    let p = palette(colors.clone());
    let img = Image::from_rgba(8, 8, sample_pixels(64)).unwrap();
    let out = quantize(&p, &img);
    for (k, px) in out.as_rgba().chunks(4).enumerate() {
        let c = rgb(px[0], px[1], px[2]);
        assert!(colors.contains(&c));
        let src = &img.as_rgba()[4 * k..4 * k + 3];
        let best = colors.iter().map(|e| distance_sq(rgb(src[0], src[1], src[2]), *e)).min().unwrap();
        assert_eq!(distance_sq(rgb(src[0], src[1], src[2]), c), best);
    }
}

#[test]
fn repeated_runs_are_identical() {
    let p = palette(vec![rgb(0, 0, 0), rgb(255, 255, 0), rgb(0, 255, 255), rgb(128, 128, 128)]);
    let img = Image::from_rgba(16, 9, sample_pixels(144)).unwrap();
    let a = quantize(&p, &img);
    let b = quantize(&p, &img);
    assert_eq!(a.as_rgba(), b.as_rgba());
}

#[test]
fn dimensions_are_preserved() {
    let p = palette(vec![rgb(1, 2, 3), rgb(200, 100, 50)]);
    for (w, h) in [(0u32, 0u32), (1, 1), (64, 37)] {
        let n = (w * h) as usize;
        let img = Image::from_rgba(w, h, sample_pixels(n)).unwrap();
        let out = quantize(&p, &img);
        assert_eq!(out.width(), w);
        assert_eq!(out.height(), h);
        assert_eq!(out.as_rgba().len(), n * 4);
        assert_eq!(out.into_rgba().len(), n * 4);
    }
}

#[test]
fn image_size_must_match_the_buffer() {
    assert!(Image::from_rgba(2, 2, vec![0; 15]).is_none());
    assert!(Image::from_rgba(2, 2, vec![0; 12]).is_none());
    assert!(Image::from_rgba(0, 5, vec![]).is_some());
    assert!(Image::from_rgba(2, 2, vec![0; 16]).is_some());
}

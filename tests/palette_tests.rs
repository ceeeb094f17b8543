use mandelbrot::color::{ColorError, RGB};
use mandelbrot::palette::{interpolate, new_linear_palette, segment_counts, PaletteError};

fn anchors() -> (RGB, RGB, RGB, RGB) {
    (
        RGB::hex("E810DD").unwrap(),
        RGB::hex("33B242").unwrap(),
        RGB::hex("E81000").unwrap(),
        RGB::hex("1A246D").unwrap(),
    )
}

#[test]
fn hex_reads_channels() {
    assert_eq!(RGB::hex("E810DD"), Ok(RGB { r: 232, g: 16, b: 221 }));
    assert_eq!(RGB::hex("1a246d"), Ok(RGB { r: 26, g: 36, b: 109 }));
    assert_eq!(RGB::hex("000000"), Ok(RGB { r: 0, g: 0, b: 0 }));
    assert_eq!(RGB::hex("ffFFff"), Ok(RGB { r: 255, g: 255, b: 255 }));
}

#[test]
fn hex_rejects_wrong_length() {
    assert_eq!(RGB::hex("E810D"), Err(ColorError::WrongLength));
    assert_eq!(RGB::hex("E810DD0"), Err(ColorError::WrongLength));
    assert_eq!(RGB::hex(""), Err(ColorError::WrongLength));
}

#[test]
fn hex_rejects_non_digits() {
    assert_eq!(RGB::hex("GG0000"), Err(ColorError::InvalidDigit));
    assert_eq!(RGB::hex("+F0000"), Err(ColorError::InvalidDigit));
    assert_eq!(RGB::hex("12345 "), Err(ColorError::InvalidDigit));
}

#[test]
fn channels_in_order() {
    assert_eq!(RGB { r: 1, g: 2, b: 3 }.channels(), [1, 2, 3]);
}

#[test]
fn palette_too_short_is_refused() {
    let (c1, c2, c3, c4) = anchors();
    for n in 0..4 {
        assert_eq!(new_linear_palette(c1, c2, c3, c4, n), Err(PaletteError::InvalidPaletteSize));
    }
}

#[test]
fn palette_length_and_endpoints() {
    let (c1, c2, c3, c4) = anchors();
    for n in 4..40u32 {
        let p = new_linear_palette(c1, c2, c3, c4, n).unwrap();
        assert_eq!(p.len(), n as usize);
        assert_eq!(p[0], c1);
        assert_eq!(p[n as usize - 1], c4);
    }
    let p = new_linear_palette(c1, c2, c3, c4, 500).unwrap();
    assert_eq!(p.len(), 500);
    assert_eq!(p[499], c4);
}

#[test]
fn palette_of_four_is_the_anchors() {
    let (c1, c2, c3, c4) = anchors();
    assert_eq!(new_linear_palette(c1, c2, c3, c4, 4).unwrap(), vec![c1, c2, c3, c4]);
}

#[test]
fn segment_counts_put_remainder_last() {
    assert_eq!(segment_counts(10), (2, 2, 2));
    assert_eq!(segment_counts(11), (2, 2, 3));
    assert_eq!(segment_counts(12), (2, 2, 4));
    assert_eq!(segment_counts(4), (0, 0, 0));
}

#[test]
fn palette_anchor_positions() {
    let (c1, c2, c3, c4) = anchors();
    let p = new_linear_palette(c1, c2, c3, c4, 11).unwrap();
    assert_eq!(p[3], c2);
    assert_eq!(p[6], c3);
    assert_eq!(p[10], c4);
    let p = new_linear_palette(c1, c2, c3, c4, 10).unwrap();
    assert_eq!(p[3], c2);
    assert_eq!(p[6], c3);
}

#[test]
fn palette_interpolated_values() {
    let (c1, c2, c3, c4) = anchors();
    let p = new_linear_palette(c1, c2, c3, c4, 10).unwrap();
    // 232 + (51 - 232) / 3 = 171.67, 16 + 162 / 3 = 70, 221 - 155 / 3 = 169.33
    assert_eq!(p[1], RGB { r: 171, g: 70, b: 169 });
    // 232 - 2 * 181 / 3 = 111.33, 16 + 2 * 162 / 3 = 124, 221 - 2 * 155 / 3 = 117.67
    assert_eq!(p[2], RGB { r: 111, g: 124, b: 117 });
}

#[test]
fn interpolate_steps() {
    let p = RGB { r: 0, g: 10, b: 255 };
    let q = RGB { r: 255, g: 0, b: 0 };
    assert_eq!(interpolate(p, q, 0, 4), p);
    assert_eq!(interpolate(p, q, 4, 4), q);
    assert_eq!(interpolate(p, q, 1, 4), RGB { r: 63, g: 7, b: 191 });
    assert_eq!(interpolate(p, q, 3, 3), q);
}

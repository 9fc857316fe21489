use ipn::qr::{paint, qr_picture, QrModules, QrPicture, MAX_VERSION};

fn pixel(p: &QrPicture, y: usize, x: usize) -> u8 {
    let at = (y * p.side + x) * 3;
    assert_eq!(p.pixels[at], p.pixels[at + 1]);
    assert_eq!(p.pixels[at], p.pixels[at + 2]);
    p.pixels[at]
}

#[test]
fn one_dark_module() {
    let p = paint(&QrModules { width: 1, dark: vec![true] });
    // Nine modules of 26 pixels.
    assert_eq!(p.side, 234);
    assert_eq!(p.pixels.len(), 234 * 234 * 3);
    for y in 0..234 {
        for x in 0..234 {
            let inside = (104..130).contains(&y) && (104..130).contains(&x);
            assert_eq!(pixel(&p, y, x), if inside { 0 } else { 255 });
        }
    }
}

#[test]
fn rows_come_before_columns() {
    let p = paint(&QrModules { width: 2, dark: vec![false, true, false, false] });
    // Ten modules of 24 pixels; dark is the second module of the first row.
    assert_eq!(p.side, 240);
    assert_eq!(pixel(&p, 4 * 24, 5 * 24), 0);
    assert_eq!(pixel(&p, 5 * 24, 4 * 24), 255);
    assert_eq!(pixel(&p, 4 * 24, 4 * 24), 255);
}

#[test]
fn large_codes_keep_two_pixels_to_a_module() {
    let p = paint(&QrModules { width: 177, dark: vec![true; 177 * 177] });
    assert_eq!(p.side, 370);
    assert_eq!(pixel(&p, 8, 8), 0);
    assert_eq!(pixel(&p, 361, 361), 0);
    assert_eq!(pixel(&p, 362, 361), 255);
    assert_eq!(pixel(&p, 7, 8), 255);
}

#[test]
fn picture_shows_the_code_of_the_text() {
    let text = "ipn1qpzry9x8gf2tvdw0s3jn54khce6mua7l";
    let code = qrcode::QrCode::new(text.as_bytes()).unwrap();
    let w = code.width();
    let colors = code.to_colors();
    let p = qr_picture(text).unwrap();
    let modules = w + 8;
    let scale = (240 / modules).max(2);
    assert_eq!(p.side, modules * scale);
    for y in 0..w {
        for x in 0..w {
            let dark = colors[y * w + x] == qrcode::Color::Dark;
            let shade = pixel(&p, (y + 4) * scale + scale / 2, (x + 4) * scale);
            assert_eq!(shade, if dark { 0 } else { 255 });
        }
    }
    assert_ne!(p.pixels, qr_picture("ipn1").unwrap().pixels);
}

#[test]
fn pictures_end_with_the_greatest_version_drawn() {
    assert_eq!(MAX_VERSION, 13);
    // 331 bytes are the most that this version holds, 69 modules to a side.
    let longest = "x".repeat(331);
    let p = qr_picture(&longest).unwrap();
    assert_eq!(p.side, (69 + 8) * 3);
    let code = qrcode::QrCode::new(longest.as_bytes()).unwrap();
    assert_eq!(code.width(), 69);
    assert!(qr_picture(&"x".repeat(332)).is_none());
    // Digits take less room.
    assert!(qr_picture(&"7".repeat(700)).is_some());
    assert!(qr_picture(&"7".repeat(900)).is_none());
    // The smallest code has 21 modules to a side.
    assert_eq!(qr_picture("").unwrap().side, (21 + 8) * 8);
    assert_eq!(qr_picture("ipn1").unwrap().side, (21 + 8) * 8);
}

#[test]
fn too_long_a_text_has_no_picture() {
    assert!(qr_picture(&"x".repeat(4000)).is_none());
}

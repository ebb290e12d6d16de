use luck_jingle::dither::{dither, to_canvas, Canvas};

#[test]
fn white_canvas_dithers_to_clear_bits() {
    let canvas = Canvas::white(3);
    let bm = dither(&canvas);
    assert_eq!(bm.height, 3);
    assert_eq!(bm.data.len(), 144);
    assert!(bm.data.iter().all(|&b| b == 0x00));
}

#[test]
fn black_canvas_dithers_to_set_bits() {
    let canvas = Canvas::from_pixels(2, vec![0u8; 1152 * 2]).unwrap();
    let bm = dither(&canvas);
    assert_eq!(bm.data.len(), 96);
    assert!(bm.data.iter().all(|&b| b == 0xff));
}

#[test]
fn dithering_is_deterministic() {
    let mut pixels: Vec<u8> = Vec::new();
    for i in 0..(1152 * 2) {
        pixels.push((i % 251) as u8);
    }
    let canvas = Canvas::from_pixels(2, pixels.clone()).unwrap();
    let canvas_again = Canvas::from_pixels(2, pixels).unwrap();
    let a = dither(&canvas);
    let b = dither(&canvas_again);
    assert_eq!(a.data, b.data);
}

#[test]
fn error_carry_alternates_on_mid_gray() {
    // One row of gray 100: adjusted values 100, 200, 45, 145, -10, 90, 190,
    // 35 for the first byte, giving bits 1,0,1,0,1,1,0,1 = 0xAD.
    let canvas = Canvas::from_pixels(1, vec![100u8; 1152]).unwrap();
    let bm = dither(&canvas);
    assert_eq!(bm.data[0], 0xad);
}

#[test]
fn dithering_is_idempotent_on_its_own_output() {
    let mut pixels: Vec<u8> = Vec::new();
    for i in 0..(1152 * 3) {
        pixels.push((i * 7 % 256) as u8);
    }
    let canvas = Canvas::from_pixels(3, pixels).unwrap();
    let first = dither(&canvas);
    let rendered = to_canvas(&first);
    let second = dither(&rendered);
    assert_eq!(second.data, first.data);
    assert_eq!(second.height, first.height);
}

#[test]
fn rendered_bitmap_is_bilevel() {
    let canvas = Canvas::from_pixels(1, vec![100u8; 1152]).unwrap();
    let bm = dither(&canvas);
    let rendered = to_canvas(&bm);
    assert_eq!(rendered.pixels.len(), 1152);
    assert!(rendered.pixels.iter().all(|&p| p == 0 || p == 255));
    // First pixel dithers black, second white.
    assert_eq!(rendered.pixels[0], 0);
    assert_eq!(rendered.pixels[3], 255);
}

#[test]
fn from_pixels_rejects_wrong_length() {
    assert!(Canvas::from_pixels(2, vec![0u8; 100]).is_none());
    assert!(Canvas::from_pixels(0, Vec::new()).is_some());
}

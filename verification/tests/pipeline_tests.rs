use luck_jingle::protocol::job_from_canvas;
use luck_jingle::raster::{canvas_from_image, plan_text};

fn chars(s: &str) -> Vec<char> {
    s.chars().collect()
}

#[test]
fn hi_at_font_24_plans_the_documented_layout() {
    let (canvas, cmds) = plan_text(&chars("hi"), 24).unwrap();
    // Nine lines: dashes, blank, "hi", blank, four full space lines, one
    // partial space line; the canvas has one spare row: 26 * 10 = 260.
    assert_eq!(cmds.len(), 9);
    assert_eq!(cmds[0].text, vec!['-'; 27]);
    assert_eq!(cmds[1].text, Vec::<char>::new());
    assert_eq!(cmds[2].text, chars("hi"));
    assert_eq!(canvas.height, 260);
    assert_eq!(canvas.pixels.len(), 1152 * 260);
    assert!(canvas.pixels.iter().all(|&p| p == 255));
    for (i, cmd) in cmds.iter().enumerate() {
        assert_eq!(cmd.x, 1);
        assert_eq!(cmd.y, 26 * i);
    }
}

#[test]
fn hi_at_font_24_produces_the_documented_print_job() {
    let (canvas, _cmds) = plan_text(&chars("hi"), 24).unwrap();
    let job = job_from_canvas(&canvas).unwrap();
    // hex length 96 * 260 = 24960: 97 chunks, plus header and stop.
    assert_eq!(job.packets.len(), 99);
    let header = &job.packets[0];
    assert_eq!(header.len(), 128);
    assert_eq!(&header[0..6], &[0x1d, 0x76, 0x30, 0x00, 0x30, 0x00]);
    // row_units = 260 + 3 = 263 = 0x107: front "07", end "01".
    assert_eq!(header[6], 0x07);
    assert_eq!(header[7], 0x01);
    assert_eq!(*job.packets.last().unwrap(), vec![0x10, 0xff, 0xf1, 0x45]);
}

#[test]
fn short_canvas_has_no_job() {
    let canvas = luck_jingle::dither::Canvas::white(2);
    assert!(job_from_canvas(&canvas).is_none());
}

#[test]
fn wide_external_image_is_scaled_down_to_the_head_width() {
    // 768 x 2 is twice the head width: it scales to 384 x 1 and fills the
    // canvas edge to edge.
    let pixels = vec![255u8; 3 * 768 * 2];
    let canvas = canvas_from_image(&pixels, 768, 2).unwrap();
    assert_eq!(canvas.height, 1);
    assert_eq!(canvas.pixels.len(), 1152);
}

#[test]
fn narrow_external_image_is_scaled_up_to_the_head_width() {
    // 192 x 100 is half the head width: it scales to 384 x 200.
    let pixels = vec![0u8; 3 * 192 * 100];
    let canvas = canvas_from_image(&pixels, 192, 100).unwrap();
    assert_eq!(canvas.height, 200);
    assert_eq!(canvas.pixels.len(), 1152 * 200);
}

#[test]
fn scaled_height_rounds_down_and_never_vanishes() {
    // 100 x 2 scales to 384 x floor(768 / 100) = 384 x 7.
    let tall = canvas_from_image(&vec![0u8; 3 * 100 * 2], 100, 2).unwrap();
    assert_eq!(tall.height, 7);
    // 768 x 1 would scale to height 0.5; it is kept at one row.
    let flat = canvas_from_image(&vec![0u8; 3 * 768], 768, 1).unwrap();
    assert_eq!(flat.height, 1);
}

#[test]
fn external_image_with_wrong_byte_count_is_rejected() {
    assert!(canvas_from_image(&vec![0u8; 10], 100, 2).is_none());
    assert!(canvas_from_image(&Vec::new(), 0, 0).is_none());
}

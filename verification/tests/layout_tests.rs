use luck_jingle::layout::{compose_text, layout_chars, layout_text, width_class, WidthClass};

fn chars(s: &str) -> Vec<char> {
    s.chars().collect()
}

#[test]
fn width_classes_by_codepoint() {
    assert_eq!(width_class('a'), WidthClass::Narrow);
    assert_eq!(width_class(' '), WidthClass::Narrow);
    assert_eq!(width_class('Ā'), WidthClass::Narrow); // codepoint 256
    assert_eq!(width_class('ā'), WidthClass::Wide); // codepoint 257
    assert_eq!(width_class('新'), WidthClass::Wide);
}

#[test]
fn narrow_text_wraps_at_twice_the_budget() {
    // budget2 = 28 half-units, i.e. budget 14 units: at most 28 narrow chars.
    let text: Vec<char> = vec!['x'; 70];
    let lines = layout_chars(&text, 28);
    assert_eq!(lines.len(), 3);
    assert_eq!(lines[0].len(), 28);
    assert_eq!(lines[1].len(), 28);
    assert_eq!(lines[2].len(), 14);
}

#[test]
fn wide_text_wraps_at_the_budget() {
    // at most 14 wide characters per line under budget2 = 28.
    let text: Vec<char> = vec!['新'; 30];
    let lines = layout_chars(&text, 28);
    assert_eq!(lines.len(), 3);
    assert_eq!(lines[0].len(), 14);
    assert_eq!(lines[1].len(), 14);
    assert_eq!(lines[2].len(), 2);
}

#[test]
fn explicit_newline_flushes_and_leaves_a_blank_line() {
    let lines = layout_chars(&chars("ab\ncd"), 28);
    assert_eq!(lines.len(), 3);
    assert_eq!(lines[0], chars("ab"));
    assert_eq!(lines[1], Vec::<char>::new());
    assert_eq!(lines[2], chars("cd"));
}

#[test]
fn empty_input_has_no_lines() {
    let lines = layout_chars(&Vec::new(), 28);
    assert!(lines.is_empty());
}

#[test]
fn mixed_widths_share_the_budget() {
    // 13 wide (26 half-units) + one narrow (1) = 27 <= 28; the next wide
    // would reach 29 and wraps.
    let mut text: Vec<char> = vec!['新'; 13];
    text.push('x');
    text.push('新');
    let lines = layout_chars(&text, 28);
    assert_eq!(lines.len(), 2);
    assert_eq!(lines[0].len(), 14);
    assert_eq!(lines[1], vec!['新']);
}

#[test]
fn every_line_stays_within_the_budget() {
    // Mixed narrow/wide text; width is measured in half-units against
    // budget2 = 28.
    let text = chars("pack my 箱 with five dozen 酒壺 liquor jugs 快快快 and then some more text to wrap across lines");
    let lines = layout_chars(&text, 28);
    assert!(!lines.is_empty());
    for line in &lines {
        let half_units: u32 = line
            .iter()
            .map(|&c| if (c as u32) <= 256 { 1 } else { 2 })
            .sum();
        assert!(half_units <= 28);
    }
}

#[test]
fn compose_adds_separator_and_padding() {
    let composed = compose_text(&chars("hi"));
    let mut expected: Vec<char> = vec!['-'; 27];
    expected.push('\n');
    expected.push('h');
    expected.push('i');
    expected.push('\n');
    expected.extend(std::iter::repeat(' ').take(135));
    assert_eq!(composed, expected);
}

#[test]
fn layout_text_of_hi_at_font_24() {
    let lines = layout_text(&chars("hi"), 24);
    assert_eq!(lines.len(), 9);
    assert_eq!(lines[0], vec!['-'; 27]);
    assert_eq!(lines[1], Vec::<char>::new());
    assert_eq!(lines[2], chars("hi"));
    assert_eq!(lines[3], Vec::<char>::new());
    assert_eq!(lines[4], vec![' '; 28]);
    assert_eq!(lines[5], vec![' '; 28]);
    assert_eq!(lines[6], vec![' '; 28]);
    assert_eq!(lines[7], vec![' '; 28]);
    assert_eq!(lines[8], vec![' '; 23]);
}

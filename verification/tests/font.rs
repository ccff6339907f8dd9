use softrender::font::{draw_char, draw_digit, draw_Fps};

#[test]
fn digit_one_lights_its_glyph_pixels() {
    let w = 10usize;
    let h = 10usize;
    let mut buffer = vec![0u32; w * h];
    draw_digit(0, 0, h, w, 1, 0xFFFFFF, &mut buffer);
    // top row of the glyph for 1 is 010
    assert_eq!(buffer[0], 0);
    assert_eq!(buffer[1], 0xFFFFFF);
    assert_eq!(buffer[2], 0);
    // bottom row is 111
    assert_eq!(buffer[4 * w], 0xFFFFFF);
    assert_eq!(buffer[4 * w + 1], 0xFFFFFF);
    assert_eq!(buffer[4 * w + 2], 0xFFFFFF);
}

#[test]
fn digits_above_nine_draw_nothing() {
    let w = 8usize;
    let h = 8usize;
    let mut buffer = vec![3u32; w * h];
    draw_digit(0, 0, h, w, 10, 0xFFFFFF, &mut buffer);
    assert!(buffer.iter().all(|&c| c == 3));
}

#[test]
fn letter_f_lights_its_glyph_pixels() {
    let w = 10usize;
    let h = 10usize;
    let mut buffer = vec![0u32; w * h];
    draw_char(0, 0, h, w, 'F', 0xABCDEF, &mut buffer);
    // F: top row 111, second row 100
    assert_eq!(buffer[0], 0xABCDEF);
    assert_eq!(buffer[1], 0xABCDEF);
    assert_eq!(buffer[2], 0xABCDEF);
    assert_eq!(buffer[w], 0xABCDEF);
    assert_eq!(buffer[w + 1], 0);
}

#[test]
fn unknown_characters_draw_nothing() {
    let w = 8usize;
    let h = 8usize;
    let mut buffer = vec![9u32; w * h];
    draw_char(0, 0, h, w, 'Z', 0xFFFFFF, &mut buffer);
    assert!(buffer.iter().all(|&c| c == 9));
}

#[test]
fn counter_text_advances_four_columns_per_character() {
    let w = 40usize;
    let h = 10usize;
    let mut buffer = vec![0u32; w * h];
    draw_Fps(0, 0, h, w, "F1", 0x00FF00, &mut buffer);
    // 'F' top-left pixel, then '1' starts at column 4 (top row 010)
    assert_eq!(buffer[0], 0x00FF00);
    assert_eq!(buffer[4], 0);
    assert_eq!(buffer[5], 0x00FF00);
    assert_eq!(buffer[6], 0);
}

#[test]
fn glyphs_clip_at_the_buffer_edge() {
    let w = 4usize;
    let h = 4usize;
    let mut buffer = vec![0u32; w * h];
    // the glyph extends past both edges; only in-bounds pixels change
    draw_digit(2, 2, h, w, 8, 0x111111, &mut buffer);
    // 8's top row is 111: columns 2 and 3 of row 2 light up, column 4 is clipped
    assert_eq!(buffer[2 * w + 2], 0x111111);
    assert_eq!(buffer[2 * w + 3], 0x111111);
    assert_eq!(buffer[3 * w + 2], 0x111111);
    assert_eq!(buffer[0], 0);
}

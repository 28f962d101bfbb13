use mandelbrot::font::{draw_char, draw_text, FONT_5X7};

fn rows_of(buffer: &[u32], width: usize, height: usize) -> Vec<String> {
    (0..height)
        .map(|y| (0..width).map(|x| if buffer[y * width + x] != 0 { '#' } else { '.' }).collect())
        .collect()
}

#[test]
fn draws_a_zero() {
    let mut buffer = vec![0u32; 6 * 8];
    draw_char(&mut buffer, 6, 8, 0, 0, '0', 7);
    let rows = rows_of(&buffer, 6, 8);
    assert_eq!(
        rows,
        vec![".###..", "#...#.", "#..##.", "#.#.#.", "##..#.", "#...#.", ".###..", "......"]
    );
    assert!(buffer.iter().all(|&p| p == 0 || p == 7));
}

#[test]
fn draws_a_seven_with_an_offset() {
    let mut buffer = vec![0u32; 8 * 9];
    draw_char(&mut buffer, 8, 9, 2, 1, '7', 1);
    let rows = rows_of(&buffer, 8, 9);
    assert_eq!(
        rows,
        vec![
            "........", "..#####.", "......#.", ".....#..", "....#...", "...#....", "...#....",
            "...#....", "........"
        ]
    );
}

#[test]
fn other_characters_draw_nothing() {
    let mut buffer = vec![5u32; 6 * 8];
    for c in ['a', ' ', '-', '/', ':', 'é'] {
        draw_char(&mut buffer, 6, 8, 0, 0, c, 9);
    }
    assert!(buffer.iter().all(|&p| p == 5));
}

#[test]
fn glyphs_are_clipped_at_the_edges() {
    let mut buffer = vec![0u32; 4 * 4];
    draw_char(&mut buffer, 4, 4, 2, 2, '8', 3);
    let rows = rows_of(&buffer, 4, 4);
    assert_eq!(rows, vec!["....", "....", "...#", "..#."]);
    let mut buffer = vec![0u32; 4 * 4];
    draw_char(&mut buffer, 4, 4, 4, 0, '8', 3);
    draw_char(&mut buffer, 4, 4, 0, 4, '8', 3);
    draw_char(&mut buffer, 4, 4, usize::MAX, usize::MAX, '8', 3);
    assert!(buffer.iter().all(|&p| p == 0));
}

#[test]
fn pixels_beyond_the_grid_are_kept() {
    let mut buffer = vec![0u32; 6 * 8 + 3];
    buffer[48] = 11;
    draw_char(&mut buffer, 6, 8, 0, 0, '1', 2);
    assert_eq!(&buffer[48..], &[11, 0, 0]);
}

#[test]
fn text_advances_by_six_pixels() {
    let mut text = vec![0u32; 20 * 7];
    draw_text(&mut text, 20, 7, 1, 0, "42", 9);
    let mut chars = vec![0u32; 20 * 7];
    draw_char(&mut chars, 20, 7, 1, 0, '4', 9);
    draw_char(&mut chars, 20, 7, 7, 0, '2', 9);
    assert_eq!(text, chars);
    assert_eq!(text.iter().filter(|&&p| p == 9).count(), 14 + 15);
}

#[test]
fn text_is_clipped_and_skips_what_has_no_glyph() {
    let mut text = vec![0u32; 9 * 7];
    draw_text(&mut text, 9, 7, 0, 0, "1x234567", 4);
    let mut chars = vec![0u32; 9 * 7];
    draw_char(&mut chars, 9, 7, 0, 0, '1', 4);
    assert_eq!(text, chars);
    let mut far = vec![0u32; 9 * 7];
    draw_text(&mut far, 9, 7, usize::MAX - 2, 0, "111", 4);
    assert!(far.iter().all(|&p| p == 0));
    let mut empty = vec![0u32; 9 * 7];
    draw_text(&mut empty, 9, 7, 0, 0, "", 4);
    assert!(empty.iter().all(|&p| p == 0));
}

#[test]
fn every_glyph_fits_five_columns() {
    for glyph in FONT_5X7.iter() {
        for &row in glyph.iter() {
            assert!(row < 32);
        }
    }
}

#[test]
fn what_has_no_glyph_needs_no_buffer() {
    let mut empty: Vec<u32> = Vec::new();
    for c in [' ', '-', 'a', 'e'] {
        draw_char(&mut empty, 800, 600, 3, 4, c, 9);
    }
    draw_text(&mut empty, 800, 600, 3, 4, "", 9);
    draw_text(&mut empty, 800, 600, usize::MAX, usize::MAX, "x{:.2e} -", 9);
    assert!(empty.is_empty());
    let mut short = vec![1u32; 5];
    draw_char(&mut short, usize::MAX, usize::MAX, 0, 0, '#', 9);
    draw_text(&mut short, usize::MAX, usize::MAX, 0, 0, "abc def", 9);
    assert_eq!(short, vec![1; 5]);
}

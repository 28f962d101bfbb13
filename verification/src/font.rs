//! A 5x7 bitmap font for the decimal digits, and drawing into a pixel buffer.
//!
//! A buffer is row-major: the pixel in column `px` of row `py` is at index
//! `py * width + px`.  Drawing clips against the buffer's width and height,
//! so every position is accepted.

use vstd::prelude::*;
use crate::grid::{lemma_index_of_pixel, lemma_pixel_of_index};

verus! {

/// Width of a glyph in pixels.
pub const GLYPH_WIDTH: usize = 5;

/// Height of a glyph in pixels.
pub const GLYPH_HEIGHT: usize = 7;

/// Horizontal distance between two characters of a text: the glyph and one
/// empty column.
pub const GLYPH_ADVANCE: usize = 6;

/// Glyphs of `0` to `9`, one byte per row from top to bottom; bit 4 is the
/// leftmost column.
pub const FONT_5X7: [[u8; 7]; 10] = [
    [0b01110, 0b10001, 0b10011, 0b10101, 0b11001, 0b10001, 0b01110],
    [0b00100, 0b01100, 0b00100, 0b00100, 0b00100, 0b00100, 0b01110],
    [0b01110, 0b10001, 0b00001, 0b00110, 0b01000, 0b10000, 0b11111],
    [0b01110, 0b10001, 0b00001, 0b00110, 0b00001, 0b10001, 0b01110],
    [0b00010, 0b00110, 0b01010, 0b10010, 0b11111, 0b00010, 0b00010],
    [0b11111, 0b10000, 0b11110, 0b00001, 0b00001, 0b10001, 0b01110],
    [0b00110, 0b01000, 0b10000, 0b11110, 0b10001, 0b10001, 0b01110],
    [0b11111, 0b00001, 0b00010, 0b00100, 0b01000, 0b01000, 0b01000],
    [0b01110, 0b10001, 0b10001, 0b01110, 0b10001, 0b10001, 0b01110],
    [0b01110, 0b10001, 0b10001, 0b01111, 0b00001, 0b00010, 0b01100],
];

/// The value of a decimal digit character; other characters have no glyph.
pub open spec fn digit_of(c: char) -> Option<int> {
    if 48 <= c as u32 <= 57 {
        Some(c as u32 - 48)
    } else {
        None
    }
}

/// Whether the glyph of `digit` has a set pixel in column `col` of row `row`.
pub open spec fn glyph_bit(digit: int, row: int, col: int) -> bool {
    &&& 0 <= digit < 10
    &&& 0 <= row < GLYPH_HEIGHT
    &&& 0 <= col < GLYPH_WIDTH
    &&& (FONT_5X7[digit][row] >> ((4 - col) as u8)) & 1u8 == 1u8
}

/// Whether drawing `c` with its top left corner at (`x`, `y`) sets the pixel
/// at `index` of a buffer of `width` by `height` pixels.
pub open spec fn char_covers(width: int, height: int, x: int, y: int, c: char, index: int)
    -> bool {
    &&& width > 0
    &&& 0 <= index < width * height
    &&& digit_of(c) is Some
    &&& glyph_bit(digit_of(c).unwrap(), index / width - y, index % width - x)
}

/// Whether one of the characters of `text` is a decimal digit.
pub open spec fn has_glyph(text: Seq<char>) -> bool {
    exists|k: int| 0 <= k < text.len() && digit_of(#[trigger] text[k]) is Some
}

/// Whether drawing `text` from (`x`, `y`) sets the pixel at `index`: one of
/// its characters, each six pixels to the right of the one before, covers it.
pub open spec fn text_covers(
    width: int,
    height: int,
    x: int,
    y: int,
    text: Seq<char>,
    index: int,
) -> bool {
    exists|k: int|
        0 <= k < text.len() && #[trigger] char_covers(
            width,
            height,
            x + GLYPH_ADVANCE * k,
            y,
            text[k],
            index,
        )
}

fn digit_value(c: char) -> (d: Option<usize>)
    ensures
        d is Some <==> digit_of(c) is Some,
        d is Some ==> d.unwrap() == digit_of(c).unwrap() && d.unwrap() < 10,
{
    let code: u32 = c as u32;
    if 48 <= code && code <= 57 {
        Some((code - 48) as usize)
    } else {
        None
    }
}

/// Draws one character with its top left corner at (`x`, `y`).
///
/// Pixels that the glyph sets and that lie inside the buffer take `color`;
/// every other pixel keeps its value.  A character that is no decimal digit
/// draws nothing, whatever the buffer; for a digit the buffer has to hold
/// the whole grid.
pub fn draw_char(
    buffer: &mut [u32],
    buffer_width: usize,
    buffer_height: usize,
    x: usize,
    y: usize,
    c: char,
    color: u32,
)
    requires
        digit_of(c) is Some ==> buffer_width * buffer_height <= old(buffer)@.len(),
    ensures
        final(buffer)@.len() == old(buffer)@.len(),
        forall|i: int|
            0 <= i < old(buffer)@.len() ==> #[trigger] final(buffer)@[i] == (if char_covers(
                buffer_width as int,
                buffer_height as int,
                x as int,
                y as int,
                c,
                i,
            ) {
                color
            } else {
                old(buffer)@[i]
            }),
{
    let digit = match digit_value(c) {
        Some(d) => d,
        None => { return ; },
    };
    if x >= buffer_width || y >= buffer_height {
        proof {
            assert forall|i: int| 0 <= i < buffer@.len() implies !char_covers(
                buffer_width as int,
                buffer_height as int,
                x as int,
                y as int,
                c,
                i,
            ) by {
                if buffer_width > 0 && 0 <= i < buffer_width * buffer_height {
                    lemma_pixel_of_index(i, buffer_width as int, buffer_height as int);
                }
            }
        }
        return ;
    }
    let capacity: usize = buffer.len();
    let room_x: usize = buffer_width - x;
    let room_y: usize = buffer_height - y;
    let mut row: usize = 0;
    while row < GLYPH_HEIGHT
        invariant
            0 <= row <= 7,
            digit < 10,
            digit_of(c) == Some(digit as int),
            x < buffer_width,
            y < buffer_height,
            room_x == buffer_width - x,
            room_y == buffer_height - y,
            buffer_width * buffer_height <= capacity,
            capacity == old(buffer)@.len(),
            buffer@.len() == old(buffer)@.len(),
            forall|i: int|
                0 <= i < buffer@.len() ==> #[trigger] buffer@[i] == (if char_covers(
                    buffer_width as int,
                    buffer_height as int,
                    x as int,
                    y as int,
                    c,
                    i,
                ) && i / (buffer_width as int) - y < row {
                    color
                } else {
                    old(buffer)@[i]
                }),
        decreases GLYPH_HEIGHT - row,
    {
        let bits: u8 = FONT_5X7[digit][row];
        let ghost before_row = buffer@;
        let mut col: usize = 0;
        while col < GLYPH_WIDTH
            invariant
                0 <= col <= 5,
                0 <= row < 7,
                digit < 10,
                bits == FONT_5X7[digit as int][row as int],
                digit_of(c) == Some(digit as int),
                x < buffer_width,
                y < buffer_height,
                room_x == buffer_width - x,
                room_y == buffer_height - y,
                buffer_width * buffer_height <= capacity,
                capacity == old(buffer)@.len(),
                buffer@.len() == old(buffer)@.len(),
                before_row.len() == buffer@.len(),
                forall|i: int|
                    0 <= i < buffer@.len() ==> #[trigger] buffer@[i] == (if char_covers(
                        buffer_width as int,
                        buffer_height as int,
                        x as int,
                        y as int,
                        c,
                        i,
                    ) && i / (buffer_width as int) - y == row && i % (buffer_width as int) - x
                        < col {
                        color
                    } else {
                        before_row[i]
                    }),
            decreases GLYPH_WIDTH - col,
        {
            let shift: u8 = (4 - col) as u8;
            let set: bool = (bits >> shift) & 1u8 == 1u8;
            if set && col < room_x && row < room_y {
                let px: usize = x + col;
                let py: usize = y + row;
                proof {
                    lemma_index_of_pixel(px as int, py as int, buffer_width as int, buffer_height as int);
                }
                let target: usize = py * buffer_width + px;
                let ghost before_pixel = buffer@;
                buffer[target] = color;
                proof {
                    assert(char_covers(
                        buffer_width as int,
                        buffer_height as int,
                        x as int,
                        y as int,
                        c,
                        target as int,
                    ));
                    assert forall|i: int| 0 <= i < buffer@.len() && i != target implies !(
                    char_covers(
                        buffer_width as int,
                        buffer_height as int,
                        x as int,
                        y as int,
                        c,
                        i,
                    ) && i / (buffer_width as int) - y == row && i % (buffer_width as int) - x
                        == col) by {
                        if 0 <= i < buffer_width * buffer_height {
                            lemma_pixel_of_index(i, buffer_width as int, buffer_height as int);
                        }
                    }
                }
            } else {
                proof {
                    assert forall|i: int| 0 <= i < buffer@.len() implies !(char_covers(
                        buffer_width as int,
                        buffer_height as int,
                        x as int,
                        y as int,
                        c,
                        i,
                    ) && i / (buffer_width as int) - y == row && i % (buffer_width as int) - x
                        == col) by {
                        if 0 <= i < buffer_width * buffer_height {
                            lemma_pixel_of_index(i, buffer_width as int, buffer_height as int);
                        }
                    }
                }
            }
            col += 1;
        }
        row += 1;
    }
}

/// A character placed at or beyond the right edge covers no pixel.
pub proof fn lemma_char_off_screen(width: int, height: int, x: int, y: int, c: char, index: int)
    requires
        x >= width,
    ensures
        !char_covers(width, height, x, y, c, index),
{
    if width > 0 && 0 <= index < width * height {
        lemma_pixel_of_index(index, width, height);
    }
}

/// Draws `text` from left to right, the first character with its top left
/// corner at (`x`, `y`) and each following one six pixels further right.
///
/// A pixel takes `color` exactly if one of the characters covers it; every
/// other pixel keeps its value.  A text without a digit draws nothing,
/// whatever the buffer; otherwise the buffer has to hold the whole grid.
pub fn draw_text(
    buffer: &mut [u32],
    buffer_width: usize,
    buffer_height: usize,
    x: usize,
    y: usize,
    text: &str,
    color: u32,
)
    requires
        has_glyph(text@) ==> buffer_width * buffer_height <= old(buffer)@.len(),
    ensures
        final(buffer)@.len() == old(buffer)@.len(),
        forall|i: int|
            0 <= i < old(buffer)@.len() ==> #[trigger] final(buffer)@[i] == (if text_covers(
                buffer_width as int,
                buffer_height as int,
                x as int,
                y as int,
                text@,
                i,
            ) {
                color
            } else {
                old(buffer)@[i]
            }),
{
    let count: usize = text.unicode_len();
    let mut k: usize = 0;
    let mut cursor: usize = x;
    while k < count && cursor < buffer_width
        invariant
            0 <= k <= count,
            count == text@.len(),
            cursor == x + GLYPH_ADVANCE * k || (cursor == buffer_width && x + GLYPH_ADVANCE * k
                >= buffer_width),
            has_glyph(text@) ==> buffer_width * buffer_height <= old(buffer)@.len(),
            buffer@.len() == old(buffer)@.len(),
            forall|i: int|
                0 <= i < buffer@.len() ==> #[trigger] buffer@[i] == (if text_covers(
                    buffer_width as int,
                    buffer_height as int,
                    x as int,
                    y as int,
                    text@.take(k as int),
                    i,
                ) {
                    color
                } else {
                    old(buffer)@[i]
                }),
        decreases count - k,
    {
        let c: char = text.get_char(k);
        let ghost before = buffer@;
        assert(digit_of(c) is Some ==> has_glyph(text@)) by {
            assert(text@[k as int] == c);
        }
        draw_char(buffer, buffer_width, buffer_height, cursor, y, c, color);
        proof {
            let w = buffer_width as int;
            let h = buffer_height as int;
            let shorter = text@.take(k as int);
            let longer = text@.take(k + 1);
            assert(longer[k as int] == c);
            assert forall|i: int| 0 <= i < buffer@.len() implies (text_covers(
                w,
                h,
                x as int,
                y as int,
                longer,
                i,
            ) <==> text_covers(w, h, x as int, y as int, shorter, i) || char_covers(
                w,
                h,
                cursor as int,
                y as int,
                c,
                i,
            )) by {
                if text_covers(w, h, x as int, y as int, longer, i) {
                    let j = choose|j: int|
                        0 <= j < longer.len() && #[trigger] char_covers(
                            w,
                            h,
                            x + GLYPH_ADVANCE * j,
                            y as int,
                            longer[j],
                            i,
                        );
                    if j < k {
                        assert(shorter[j] == longer[j]);
                        assert(char_covers(w, h, x + GLYPH_ADVANCE * j, y as int, shorter[j], i));
                    }
                }
                if text_covers(w, h, x as int, y as int, shorter, i) {
                    let j = choose|j: int|
                        0 <= j < shorter.len() && #[trigger] char_covers(
                            w,
                            h,
                            x + GLYPH_ADVANCE * j,
                            y as int,
                            shorter[j],
                            i,
                        );
                    assert(shorter[j] == longer[j]);
                    assert(char_covers(w, h, x + GLYPH_ADVANCE * j, y as int, longer[j], i));
                }
                if char_covers(w, h, cursor as int, y as int, c, i) {
                    assert(char_covers(
                        w,
                        h,
                        x + GLYPH_ADVANCE * (k as int),
                        y as int,
                        longer[k as int],
                        i,
                    ));
                }
            }
        }
        k += 1;
        if buffer_width - cursor > GLYPH_ADVANCE {
            cursor += GLYPH_ADVANCE;
        } else {
            cursor = buffer_width;
        }
    }
    proof {
        let w = buffer_width as int;
        let h = buffer_height as int;
        let shorter = text@.take(k as int);
        assert forall|i: int| 0 <= i < buffer@.len() implies (text_covers(
            w,
            h,
            x as int,
            y as int,
            text@,
            i,
        ) <==> text_covers(w, h, x as int, y as int, shorter, i)) by {
            if text_covers(w, h, x as int, y as int, text@, i) {
                let j = choose|j: int|
                    0 <= j < text@.len() && #[trigger] char_covers(
                        w,
                        h,
                        x + GLYPH_ADVANCE * j,
                        y as int,
                        text@[j],
                        i,
                    );
                if j >= k {
                    lemma_char_off_screen(w, h, x + GLYPH_ADVANCE * j, y as int, text@[j], i);
                }
                assert(shorter[j] == text@[j]);
                assert(char_covers(w, h, x + GLYPH_ADVANCE * j, y as int, shorter[j], i));
            }
            if text_covers(w, h, x as int, y as int, shorter, i) {
                let j = choose|j: int|
                    0 <= j < shorter.len() && #[trigger] char_covers(
                        w,
                        h,
                        x + GLYPH_ADVANCE * j,
                        y as int,
                        shorter[j],
                        i,
                    );
                assert(shorter[j] == text@[j]);
                assert(char_covers(w, h, x + GLYPH_ADVANCE * j, y as int, text@[j], i));
            }
        }
    }
}

} // verus!

//! A tiny 3x5 bitmap font for the on-screen frame counter: digits, the
//! letters of "FPS", a colon and a blank. Each glyph is 15 bits, row by row,
//! the top row in the highest bits.
use vstd::prelude::*;
use vstd::string::StrSliceExecFns;

verus! {

/// The glyph of a decimal digit, 5 rows of 3 bits; digits above 9 get the
/// empty glyph, so drawing them touches nothing.
pub open spec fn digit_bits(d: int) -> u16 {
    if d == 0 {
        0b111_101_101_101_111u16
    } else if d == 1 {
        0b010_110_010_010_111u16
    } else if d == 2 {
        0b111_001_111_100_111u16
    } else if d == 3 {
        0b111_001_111_001_111u16
    } else if d == 4 {
        0b101_101_111_001_001u16
    } else if d == 5 {
        0b111_100_111_001_111u16
    } else if d == 6 {
        0b111_100_111_101_111u16
    } else if d == 7 {
        0b111_001_001_010_010u16
    } else if d == 8 {
        0b111_101_111_101_111u16
    } else if d == 9 {
        0b111_101_111_001_111u16
    } else {
        0u16
    }
}

/// The glyph of a letter the frame counter needs; every other character gets
/// the empty glyph.
pub open spec fn letter_bits(c: char) -> u16 {
    if c == 'F' {
        0b111_100_111_100_100u16
    } else if c == 'P' {
        0b111_101_111_100_100u16
    } else if c == 'S' {
        0b111_100_111_001_111u16
    } else if c == ':' {
        0b000_010_000_010_000u16
    } else {
        0u16
    }
}

/// The glyph of any character of the counter text.
pub open spec fn char_bits(c: char) -> u16 {
    if '0' <= c && c <= '9' {
        digit_bits(c as int - '0' as int)
    } else {
        letter_bits(c)
    }
}

/// Whether a glyph has the pixel at `(col, row)` set, columns left to right.
pub open spec fn glyph_pixel(bits: u16, row: int, col: int) -> bool {
    (((bits >> (((4 - row) * 3) as u16)) & 7) >> ((2 - col) as u16)) & 1 == 1
}

/// Whether blitting a glyph with its top-left corner at `(x, y)` into a
/// `w`-pixel-wide buffer writes the buffer cell `j`.
pub open spec fn glyph_covers(bits: u16, x: int, y: int, w: int, j: int) -> bool {
    let py = j / w;
    let px = j % w;
    &&& y <= py < y + 5
    &&& x <= px < x + 3
    &&& glyph_pixel(bits, py - y, px - x)
}

/// The buffer after blitting one glyph: covered cells take the color, the
/// rest keep their value.
pub open spec fn blit_after(buf: Seq<u32>, bits: u16, x: int, y: int, w: int, color: u32) -> Seq<
    u32,
> {
    Seq::new(buf.len(), |j: int| if glyph_covers(bits, x, y, w, j) {
        color
    } else {
        buf[j]
    })
}

fn glyph_row(bits: u16, row: usize) -> (r: u16)
    requires
        row < 5,
    ensures
        r == (bits >> (((4 - row) * 3) as u16)) & 7,
{
    (bits >> ((4 - row) * 3)) & 7
}

/// Writes one glyph into the pixel buffer, top-left corner at `(x, y)`,
/// clipped to the buffer edges.
fn blit_glyph(x: usize, y: usize, height: usize, width: usize, bits: u16, color: u32, buffer: &mut Vec<u32>)
    requires
        old(buffer)@.len() == width * height,
        width * height <= usize::MAX,
        x + 3 <= usize::MAX,
        y + 5 <= usize::MAX,
    ensures
        final(buffer)@ == blit_after(old(buffer)@, bits, x as int, y as int, width as int, color),
{
    let ghost orig = buffer@;
    let mut row_idx: usize = 0;
    while row_idx < 5
        invariant
            buffer@.len() == orig.len(),
            orig.len() == width * height,
            width * height <= usize::MAX,
            x + 3 <= usize::MAX,
            y + 5 <= usize::MAX,
            row_idx <= 5,
            forall|j: int|
                0 <= j < orig.len() ==> buffer@[j] == if glyph_covers(
                    bits,
                    x as int,
                    y as int,
                    width as int,
                    j,
                ) && j / (width as int) - y < row_idx {
                    color
                } else {
                    orig[j]
                },
        decreases 5 - row_idx,
    {
        let rowb = glyph_row(bits, row_idx);
        let mut col: usize = 0;
        while col < 3
            invariant
                buffer@.len() == orig.len(),
                orig.len() == width * height,
                width * height <= usize::MAX,
                x + 3 <= usize::MAX,
                y + 5 <= usize::MAX,
                row_idx < 5,
                col <= 3,
                rowb == (bits >> (((4 - row_idx) * 3) as u16)) & 7,
                forall|j: int|
                    0 <= j < orig.len() ==> buffer@[j] == if glyph_covers(
                        bits,
                        x as int,
                        y as int,
                        width as int,
                        j,
                    ) && (j / (width as int) - y < row_idx || (j / (width as int) - y == row_idx
                        && j % (width as int) - x < col)) {
                        color
                    } else {
                        orig[j]
                    },
            decreases 3 - col,
        {
            if (rowb >> (2 - col)) & 1 == 1 {
                let px = x + col;
                let py = y + row_idx;
                if px < width && py < height {
                    proof {
                        crate::fixed::lemma_index_of_pixel(
                            px as int,
                            py as int,
                            width as int,
                            height as int,
                        );
                    }
                    let idx = py * width + px;
                    buffer.set(idx, color);
                }
            }
            proof {
                assert forall|j: int| 0 <= j < orig.len() implies buffer@[j] == (if glyph_covers(
                    bits,
                    x as int,
                    y as int,
                    width as int,
                    j,
                ) && (j / (width as int) - y < row_idx || (j / (width as int) - y == row_idx && j
                    % (width as int) - x < col + 1)) {
                    color
                } else {
                    orig[j]
                }) by {
                    let wi = width as int;
                    assert(wi > 0) by {
                        if width == 0 {
                            assert(width * height == 0) by (nonlinear_arith)
                                requires
                                    width == 0,
                            ;
                        }
                    }
                    crate::fixed::lemma_pixel_index(j, wi, height as int);
                    let py0 = j / wi;
                    let px0 = j % wi;
                    if y <= py0 < y + 5 && x <= px0 < x + 3 {
                        if py0 - y == row_idx && px0 - x == col {
                            crate::fixed::lemma_index_of_pixel(px0, py0, wi, height as int);
                        }
                    }
                }
            }
            col = col + 1;
        }
        row_idx = row_idx + 1;
    }
    proof {
        assert(buffer@ =~= blit_after(orig, bits, x as int, y as int, width as int, color));
    }
}

/// Draws one decimal digit; digits above 9 draw nothing.
pub fn draw_digit(x: usize, y: usize, height: usize, width: usize, digit: u8, color: u32, buffer: &mut Vec<u32>)
    requires
        old(buffer)@.len() == width * height,
        width * height <= usize::MAX,
        x + 3 <= usize::MAX,
        y + 5 <= usize::MAX,
    ensures
        final(buffer)@ == blit_after(
            old(buffer)@,
            digit_bits(digit as int),
            x as int,
            y as int,
            width as int,
            color,
        ),
{
    let bits: u16 = if digit == 0 {
        0b111_101_101_101_111u16
    } else if digit == 1 {
        0b010_110_010_010_111u16
    } else if digit == 2 {
        0b111_001_111_100_111u16
    } else if digit == 3 {
        0b111_001_111_001_111u16
    } else if digit == 4 {
        0b101_101_111_001_001u16
    } else if digit == 5 {
        0b111_100_111_001_111u16
    } else if digit == 6 {
        0b111_100_111_101_111u16
    } else if digit == 7 {
        0b111_001_001_010_010u16
    } else if digit == 8 {
        0b111_101_111_101_111u16
    } else if digit == 9 {
        0b111_101_111_001_111u16
    } else {
        0u16
    };
    blit_glyph(x, y, height, width, bits, color, buffer);
}

/// Draws one character of the counter's small alphabet; unknown characters
/// draw nothing.
pub fn draw_char(x: usize, y: usize, height: usize, width: usize, ch: char, color: u32, buffer: &mut Vec<u32>)
    requires
        old(buffer)@.len() == width * height,
        width * height <= usize::MAX,
        x + 3 <= usize::MAX,
        y + 5 <= usize::MAX,
    ensures
        final(buffer)@ == blit_after(
            old(buffer)@,
            letter_bits(ch),
            x as int,
            y as int,
            width as int,
            color,
        ),
{
    let bits: u16 = if ch == 'F' {
        0b111_100_111_100_100u16
    } else if ch == 'P' {
        0b111_101_111_100_100u16
    } else if ch == 'S' {
        0b111_100_111_001_111u16
    } else if ch == ':' {
        0b000_010_000_010_000u16
    } else {
        0u16
    };
    blit_glyph(x, y, height, width, bits, color, buffer);
}

/// The buffer after drawing a whole text, one glyph every four columns.
pub open spec fn text_after(
    buf: Seq<u32>,
    text: Seq<char>,
    x: int,
    y: int,
    w: int,
    color: u32,
) -> Seq<u32>
    decreases text.len(),
{
    if text.len() == 0 {
        buf
    } else {
        text_after(
            blit_after(buf, char_bits(text[0]), x, y, w, color),
            text.drop_first(),
            x + 4,
            y,
            w,
            color,
        )
    }
}

/// Draws a text such as "FPS: 60" into the pixel buffer, advancing four
/// columns per character.
#[allow(non_snake_case)]
pub fn draw_Fps(x: usize, y: usize, height: usize, width: usize, text: &str, color: u32, buffer: &mut Vec<u32>)
    requires
        old(buffer)@.len() == width * height,
        width * height <= usize::MAX,
        x + 4 * text@.len() + 4 <= usize::MAX,
        y + 5 <= usize::MAX,
    ensures
        final(buffer)@ == text_after(
            old(buffer)@,
            text@,
            x as int,
            y as int,
            width as int,
            color,
        ),
{
    let n = text.unicode_len();
    let mut i: usize = 0;
    let mut pen_x: usize = x;
    proof {
        assert(text@.skip(0) =~= text@);
    }
    while i < n
        invariant
            n == text@.len(),
            buffer@.len() == width * height,
            width * height <= usize::MAX,
            i <= n,
            pen_x == x + 4 * i,
            x + 4 * n + 4 <= usize::MAX,
            y + 5 <= usize::MAX,
            text_after(old(buffer)@, text@, x as int, y as int, width as int, color)
                == text_after(
                buffer@,
                text@.skip(i as int),
                pen_x as int,
                y as int,
                width as int,
                color,
            ),
        decreases n - i,
    {
        let ch = text.get_char(i);
        let ghost before = buffer@;
        let digit_code = ch as u32;
        if 48 <= digit_code && digit_code <= 57 {
            let d = (digit_code - 48) as u8;
            proof {
                assert('0' <= ch && ch <= '9');
                assert(char_bits(text@[i as int]) == digit_bits(d as int));
            }
            draw_digit(pen_x, y, height, width, d, color, buffer);
        } else {
            proof {
                assert(!('0' <= ch && ch <= '9'));
                assert(char_bits(text@[i as int]) == letter_bits(ch));
            }
            draw_char(pen_x, y, height, width, ch, color, buffer);
        }
        proof {
            assert(text@.skip(i as int)[0] == text@[i as int]);
            assert(text@.skip(i as int).drop_first() =~= text@.skip(i as int + 1));
        }
        pen_x = pen_x + 4;
        i = i + 1;
    }
    proof {
        assert(text@.skip(n as int).len() == 0);
    }
}

} // verus!

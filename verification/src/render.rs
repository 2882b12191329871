//! Drawing on a key image and turning it into a PNG data URL.

use vstd::prelude::*;
use vstd::string::{StrSliceExecFns, StringExecFns};
use base64::Engine;
use crate::text::{decimal, lemma_decimal_len, u8_decimal, str_eq};
use crate::pixels::{
    background, in_rect, lemma_paint_same_region, lemma_paint_union,
    lemma_pixel_of_byte, nowhere, opaque_raster, paint, pixel_offset, pixel_x, pixel_y, point, rect, union, Rgb,
    BUF_LEN, HEIGHT, WIDTH,
};

verus! {

/// A glyph of the built-in 5x7 bitmap font: seven rows, top to bottom; in
/// each row bit 4 is the leftmost column and bit 0 the rightmost.
pub struct Glyph(pub [u8; 7]);

/// The rows of the bitmap of `c` in the built-in font, or `None` for a
/// character the font does not have (it draws digits, `H`, `W`, `K`, `M`,
/// `O` and `%`).
pub open spec fn glyph_rows(c: char) -> Option<Seq<u8>> {
    if c == '0' {
        Some(seq![0x0Eu8, 0x11, 0x13, 0x15, 0x19, 0x11, 0x0E])
    } else if c == '1' {
        Some(seq![0x02u8, 0x06, 0x02, 0x02, 0x02, 0x02, 0x07])
    } else if c == '2' {
        Some(seq![0x0Eu8, 0x11, 0x01, 0x02, 0x04, 0x08, 0x1F])
    } else if c == '3' {
        Some(seq![0x1Fu8, 0x02, 0x04, 0x02, 0x01, 0x11, 0x0E])
    } else if c == '4' {
        Some(seq![0x02u8, 0x06, 0x0A, 0x12, 0x1F, 0x02, 0x02])
    } else if c == '5' {
        Some(seq![0x1Fu8, 0x10, 0x1E, 0x01, 0x01, 0x11, 0x0E])
    } else if c == '6' {
        Some(seq![0x06u8, 0x08, 0x10, 0x1E, 0x11, 0x11, 0x0E])
    } else if c == '7' {
        Some(seq![0x1Fu8, 0x01, 0x02, 0x04, 0x08, 0x08, 0x08])
    } else if c == '8' {
        Some(seq![0x0Eu8, 0x11, 0x11, 0x0E, 0x11, 0x11, 0x0E])
    } else if c == '9' {
        Some(seq![0x0Eu8, 0x11, 0x11, 0x0F, 0x01, 0x02, 0x0C])
    } else if c == 'H' {
        Some(seq![0x11u8, 0x11, 0x11, 0x1F, 0x11, 0x11, 0x11])
    } else if c == 'W' {
        Some(seq![0x11u8, 0x11, 0x11, 0x15, 0x15, 0x15, 0x0A])
    } else if c == 'K' {
        Some(seq![0x11u8, 0x12, 0x14, 0x18, 0x14, 0x12, 0x11])
    } else if c == 'M' {
        Some(seq![0x11u8, 0x1B, 0x15, 0x15, 0x11, 0x11, 0x11])
    } else if c == 'O' {
        Some(seq![0x0Eu8, 0x11, 0x11, 0x11, 0x11, 0x11, 0x0E])
    } else if c == '%' {
        Some(seq![0x10u8, 0x11, 0x02, 0x04, 0x08, 0x11, 0x01])
    } else {
        None
    }
}

/// Place value of column `col` (0 is leftmost) in a glyph row.
pub open spec fn column_weight(col: int) -> int {
    if col == 0 {
        16
    } else if col == 1 {
        8
    } else if col == 2 {
        4
    } else if col == 3 {
        2
    } else {
        1
    }
}

/// Column `col` of a glyph row is lit.
pub open spec fn glyph_bit(row: u8, col: int) -> bool {
    (row as int / column_weight(col)) % 2 == 1
}

/// Cell `(row, col)` of the glyph of `c` is lit.
pub open spec fn cell_lit(c: char, row: int, col: int) -> bool {
    &&& 0 <= row < 7
    &&& 0 <= col < 5
    &&& glyph_rows(c) matches Some(g)
    &&& glyph_bit(g[row], col)
}

/// The text has a character that the font draws.
pub open spec fn has_glyph(text: Seq<char>) -> bool {
    exists|i: int| 0 <= i < text.len() && (#[trigger] glyph_rows(text[i])) is Some
}

/// Pixel `(px, py)` lies in the square drawn for lit cell `(row, col)` of
/// character `i` of `text`, written from `(x, y)`: every character takes an
/// advance of six cells, every cell is a `scale` x `scale` square.
pub open spec fn text_cell(
    text: Seq<char>,
    x: int,
    y: int,
    scale: int,
    i: int,
    row: int,
    col: int,
    px: int,
    py: int,
) -> bool {
    &&& 0 <= i < text.len()
    &&& cell_lit(text[i], row, col)
    &&& in_rect(px, py, x + 6 * scale * i + col * scale, y + row * scale, scale, scale)
}

/// The pixels that drawing `text` at `(x, y)` with cell size `scale` covers.
pub open spec fn text_region(text: Seq<char>, x: int, y: int, scale: int) -> spec_fn(
    int,
    int,
) -> bool {
    |px: int, py: int|
        exists|i: int, row: int, col: int|
            #[trigger] text_cell(text, x, y, scale, i, row, col, px, py)
}

/// Cells of the first `n` characters of `text`.
spec fn chars_before(text: Seq<char>, x: int, y: int, scale: int, n: int) -> spec_fn(
    int,
    int,
) -> bool {
    |px: int, py: int|
        exists|i: int, row: int, col: int|
            i < n && #[trigger] text_cell(text, x, y, scale, i, row, col, px, py)
}

/// Cells of the first `r` rows of character `i`.
spec fn rows_before(text: Seq<char>, x: int, y: int, scale: int, i: int, r: int) -> spec_fn(
    int,
    int,
) -> bool {
    |px: int, py: int|
        exists|row: int, col: int|
            row < r && #[trigger] text_cell(text, x, y, scale, i, row, col, px, py)
}

/// Cells of the first `cc` columns of row `row` of character `i`.
spec fn cols_before(
    text: Seq<char>,
    x: int,
    y: int,
    scale: int,
    i: int,
    row: int,
    cc: int,
) -> spec_fn(int, int) -> bool {
    |px: int, py: int|
        exists|col: int| col < cc && #[trigger] text_cell(text, x, y, scale, i, row, col, px, py)
}

proof fn lemma_chars_start(text: Seq<char>, x: int, y: int, scale: int)
    ensures
        forall|px: int, py: int| #[trigger] chars_before(text, x, y, scale, 0)(px, py) == nowhere()(px, py),
{
}

proof fn lemma_chars_all(text: Seq<char>, x: int, y: int, scale: int)
    ensures
        forall|px: int, py: int|
            #[trigger] chars_before(text, x, y, scale, text.len() as int)(px, py) == text_region(
                text,
                x,
                y,
                scale,
            )(px, py),
{
}

proof fn lemma_rows_start(text: Seq<char>, x: int, y: int, scale: int, i: int)
    ensures
        forall|px: int, py: int|
            #[trigger] union(chars_before(text, x, y, scale, i), rows_before(text, x, y, scale, i, 0))(
                px,
                py,
            ) == chars_before(text, x, y, scale, i)(px, py),
{
}

proof fn lemma_cols_start(text: Seq<char>, x: int, y: int, scale: int, i: int, row: int)
    ensures
        forall|px: int, py: int|
            #[trigger] union(
                union(chars_before(text, x, y, scale, i), rows_before(text, x, y, scale, i, row)),
                cols_before(text, x, y, scale, i, row, 0),
            )(px, py) == union(
                chars_before(text, x, y, scale, i),
                rows_before(text, x, y, scale, i, row),
            )(px, py),
{
}

/// A column that is not lit adds nothing.
proof fn lemma_cols_skip(text: Seq<char>, x: int, y: int, scale: int, i: int, row: int, col: int)
    requires
        !cell_lit(text[i], row, col),
    ensures
        forall|px: int, py: int|
            #[trigger] cols_before(text, x, y, scale, i, row, col + 1)(px, py) == cols_before(
                text,
                x,
                y,
                scale,
                i,
                row,
                col,
            )(px, py),
{
    assert forall|px: int, py: int|
        #[trigger] cols_before(text, x, y, scale, i, row, col + 1)(px, py) implies cols_before(
        text,
        x,
        y,
        scale,
        i,
        row,
        col,
    )(px, py) by {
        let cc = choose|cc: int|
            cc < col + 1 && #[trigger] text_cell(text, x, y, scale, i, row, cc, px, py);
        assert(cc != col);
    }
}

/// A lit column adds the square of its cell.
proof fn lemma_cols_lit(
    text: Seq<char>,
    x: int,
    y: int,
    scale: int,
    i: int,
    row: int,
    col: int,
    base: spec_fn(int, int) -> bool,
)
    requires
        0 <= i < text.len(),
        cell_lit(text[i], row, col),
    ensures
        forall|px: int, py: int|
            #[trigger] union(
                union(base, cols_before(text, x, y, scale, i, row, col)),
                rect(x + 6 * scale * i + col * scale, y + row * scale, scale, scale),
            )(px, py) == union(base, cols_before(text, x, y, scale, i, row, col + 1))(px, py),
{
    assert forall|px: int, py: int|
        #[trigger] union(base, cols_before(text, x, y, scale, i, row, col + 1))(
            px,
            py,
        ) implies union(
        union(base, cols_before(text, x, y, scale, i, row, col)),
        rect(x + 6 * scale * i + col * scale, y + row * scale, scale, scale),
    )(px, py) by {
        if !base(px, py) {
            let cc = choose|cc: int|
                cc < col + 1 && #[trigger] text_cell(text, x, y, scale, i, row, cc, px, py);
            if cc < col {
                assert(cols_before(text, x, y, scale, i, row, col)(px, py));
            }
        }
    }
    assert forall|px: int, py: int|
        #[trigger] union(
            union(base, cols_before(text, x, y, scale, i, row, col)),
            rect(x + 6 * scale * i + col * scale, y + row * scale, scale, scale),
        )(px, py) implies union(base, cols_before(text, x, y, scale, i, row, col + 1))(
        px,
        py,
    ) by {
        if !base(px, py) && !cols_before(text, x, y, scale, i, row, col)(px, py) {
            assert(text_cell(text, x, y, scale, i, row, col, px, py));
        } else if !base(px, py) {
            let cc = choose|cc: int|
                cc < col && #[trigger] text_cell(text, x, y, scale, i, row, cc, px, py);
            assert(text_cell(text, x, y, scale, i, row, cc, px, py));
        }
    }
}

/// Finishing the five columns of a row finishes the row.
proof fn lemma_row_done(text: Seq<char>, x: int, y: int, scale: int, i: int, row: int)
    ensures
        forall|px: int, py: int|
            #[trigger] union(
                union(chars_before(text, x, y, scale, i), rows_before(text, x, y, scale, i, row)),
                cols_before(text, x, y, scale, i, row, 5),
            )(px, py) == union(
                chars_before(text, x, y, scale, i),
                rows_before(text, x, y, scale, i, row + 1),
            )(px, py),
{
    assert forall|px: int, py: int|
        #[trigger] union(
            chars_before(text, x, y, scale, i),
            rows_before(text, x, y, scale, i, row + 1),
        )(px, py) implies union(
        union(chars_before(text, x, y, scale, i), rows_before(text, x, y, scale, i, row)),
        cols_before(text, x, y, scale, i, row, 5),
    )(px, py) by {
        if !chars_before(text, x, y, scale, i)(px, py) {
            let (rr, cc) = choose|rr: int, cc: int|
                rr < row + 1 && #[trigger] text_cell(text, x, y, scale, i, rr, cc, px, py);
            if rr < row {
                assert(rows_before(text, x, y, scale, i, row)(px, py));
            } else {
                assert(cols_before(text, x, y, scale, i, row, 5)(px, py));
            }
        }
    }
    assert forall|px: int, py: int|
        #[trigger] union(
            union(chars_before(text, x, y, scale, i), rows_before(text, x, y, scale, i, row)),
            cols_before(text, x, y, scale, i, row, 5),
        )(px, py) implies union(
        chars_before(text, x, y, scale, i),
        rows_before(text, x, y, scale, i, row + 1),
    )(px, py) by {
        if rows_before(text, x, y, scale, i, row)(px, py) {
            let (rr, cc) = choose|rr: int, cc: int|
                rr < row && #[trigger] text_cell(text, x, y, scale, i, rr, cc, px, py);
            assert(text_cell(text, x, y, scale, i, rr, cc, px, py));
        } else if cols_before(text, x, y, scale, i, row, 5)(px, py) {
            let cc = choose|cc: int|
                cc < 5 && #[trigger] text_cell(text, x, y, scale, i, row, cc, px, py);
            assert(text_cell(text, x, y, scale, i, row, cc, px, py));
        }
    }
}

/// Finishing the seven rows of a character finishes the character.
proof fn lemma_char_done(text: Seq<char>, x: int, y: int, scale: int, i: int)
    ensures
        forall|px: int, py: int|
            #[trigger] union(
                chars_before(text, x, y, scale, i),
                rows_before(text, x, y, scale, i, 7),
            )(px, py) == chars_before(text, x, y, scale, i + 1)(px, py),
{
    assert forall|px: int, py: int|
        #[trigger] chars_before(text, x, y, scale, i + 1)(px, py) implies union(
        chars_before(text, x, y, scale, i),
        rows_before(text, x, y, scale, i, 7),
    )(px, py) by {
        let (ii, rr, cc) = choose|ii: int, rr: int, cc: int|
            ii < i + 1 && #[trigger] text_cell(text, x, y, scale, ii, rr, cc, px, py);
        if ii < i {
            assert(chars_before(text, x, y, scale, i)(px, py));
        } else {
            assert(rows_before(text, x, y, scale, i, 7)(px, py));
        }
    }
    assert forall|px: int, py: int|
        #[trigger] union(
            chars_before(text, x, y, scale, i),
            rows_before(text, x, y, scale, i, 7),
        )(px, py) implies chars_before(text, x, y, scale, i + 1)(px, py) by {
        if chars_before(text, x, y, scale, i)(px, py) {
            let (ii, rr, cc) = choose|ii: int, rr: int, cc: int|
                ii < i && #[trigger] text_cell(text, x, y, scale, ii, rr, cc, px, py);
            assert(text_cell(text, x, y, scale, ii, rr, cc, px, py));
        } else {
            let (rr, cc) = choose|rr: int, cc: int|
                rr < 7 && #[trigger] text_cell(text, x, y, scale, i, rr, cc, px, py);
            assert(text_cell(text, x, y, scale, i, rr, cc, px, py));
        }
    }
}

/// A character without a glyph draws nothing.
proof fn lemma_char_blank(text: Seq<char>, x: int, y: int, scale: int, i: int)
    requires
        glyph_rows(text[i]) is None,
    ensures
        forall|px: int, py: int|
            #[trigger] chars_before(text, x, y, scale, i + 1)(px, py) == chars_before(
                text,
                x,
                y,
                scale,
                i,
            )(px, py),
{
    assert forall|px: int, py: int|
        #[trigger] chars_before(text, x, y, scale, i + 1)(px, py) implies chars_before(
        text,
        x,
        y,
        scale,
        i,
    )(px, py) by {
        let (ii, rr, cc) = choose|ii: int, rr: int, cc: int|
            ii < i + 1 && #[trigger] text_cell(text, x, y, scale, ii, rr, cc, px, py);
        assert(ii != i);
    }
}

/// `a + k * s` lies between `a` and `a + n * s` for `0 <= k <= n`.
proof fn lemma_between(a: int, s: int, k: int, n: int)
    requires
        0 <= k <= n,
    ensures
        (s >= 0 ==> a <= a + k * s <= a + n * s),
        (s < 0 ==> a + n * s <= a + k * s <= a),
        k * s == s * k,
        n * s == s * n,
{
    assert(k * s == s * k && n * s == s * n) by (nonlinear_arith);
    assert(s >= 0 ==> 0 <= k * s <= n * s) by (nonlinear_arith)
        requires
            0 <= k <= n,
    ;
    assert(s < 0 ==> n * s <= k * s <= 0) by (nonlinear_arith)
        requires
            0 <= k <= n,
    ;
}

/// The exec test of a glyph row bit agrees with `glyph_bit`.
proof fn lemma_glyph_bit(b: u8, col: u32)
    requires
        col < 5,
    ensures
        glyph_bit(b, col as int) == (b & (1u8 << (4 - col)) != 0),
{
    if col == 0 {
        assert((b & (1u8 << 4u32) != 0) == ((b / 16) % 2 == 1)) by (bit_vector);
    } else if col == 1 {
        assert((b & (1u8 << 3u32) != 0) == ((b / 8) % 2 == 1)) by (bit_vector);
    } else if col == 2 {
        assert((b & (1u8 << 2u32) != 0) == ((b / 4) % 2 == 1)) by (bit_vector);
    } else if col == 3 {
        assert((b & (1u8 << 1u32) != 0) == ((b / 2) % 2 == 1)) by (bit_vector);
    } else {
        assert((b & (1u8 << 0u32) != 0) == (b % 2 == 1)) by (bit_vector);
    }
}

/// The glyph of `c` in the built-in font.
pub fn font_get(c: char) -> (g: Option<Glyph>)
    ensures
        match g {
            Some(g) => glyph_rows(c) == Some(g.0@),
            None => glyph_rows(c) is None,
        },
{
    let g: [u8; 7] = match c {
        '0' => [0x0E, 0x11, 0x13, 0x15, 0x19, 0x11, 0x0E],
        '1' => [0x02, 0x06, 0x02, 0x02, 0x02, 0x02, 0x07],
        '2' => [0x0E, 0x11, 0x01, 0x02, 0x04, 0x08, 0x1F],
        '3' => [0x1F, 0x02, 0x04, 0x02, 0x01, 0x11, 0x0E],
        '4' => [0x02, 0x06, 0x0A, 0x12, 0x1F, 0x02, 0x02],
        '5' => [0x1F, 0x10, 0x1E, 0x01, 0x01, 0x11, 0x0E],
        '6' => [0x06, 0x08, 0x10, 0x1E, 0x11, 0x11, 0x0E],
        '7' => [0x1F, 0x01, 0x02, 0x04, 0x08, 0x08, 0x08],
        '8' => [0x0E, 0x11, 0x11, 0x0E, 0x11, 0x11, 0x0E],
        '9' => [0x0E, 0x11, 0x11, 0x0F, 0x01, 0x02, 0x0C],
        'H' => [0x11, 0x11, 0x11, 0x1F, 0x11, 0x11, 0x11],
        'W' => [0x11, 0x11, 0x11, 0x15, 0x15, 0x15, 0x0A],
        'K' => [0x11, 0x12, 0x14, 0x18, 0x14, 0x12, 0x11],
        'M' => [0x11, 0x1B, 0x15, 0x15, 0x11, 0x11, 0x11],
        'O' => [0x0E, 0x11, 0x11, 0x11, 0x11, 0x11, 0x0E],
        '%' => [0x10, 0x11, 0x02, 0x04, 0x08, 0x11, 0x01],
        _ => return None,
    };
    assert(glyph_rows(c) == Some(g@));
    Some(Glyph(g))
}

/// A 72x72 RGBA raster, row by row, four bytes per pixel.
pub struct Canvas {
    pub buf: Vec<u8>,
}

impl Canvas {
    /// A fresh key image: every pixel opaque dark grey (25, 25, 25).
    pub fn new() -> (canvas: Self)
        ensures
            canvas.buf@ == background(),
    {
        let mut buf: Vec<u8> = Vec::new();
        let mut k: usize = 0;
        while k < BUF_LEN
            invariant
                k <= BUF_LEN,
                buf@.len() == k,
                forall|j: int| 0 <= j < k ==> #[trigger] buf@[j] == background()[j],
            decreases BUF_LEN - k,
        {
            if k % 4 == 3 {
                buf.push(255);
            } else {
                buf.push(25);
            }
            k = k + 1;
        }
        assert(buf@ =~= background());
        Canvas { buf }
    }

    /// Set pixel `(x, y)` to the opaque colour `c`; a pixel outside the image
    /// is ignored.
    fn put_pixel(&mut self, x: i32, y: i32, c: Rgb)
        requires
            old(self).buf@.len() == BUF_LEN,
        ensures
            final(self).buf@ == paint(old(self).buf@, point(x as int, y as int), c),
    {
        if x < 0 || y < 0 || x >= WIDTH as i32 || y >= HEIGHT as i32 {
            proof {
                let s = self.buf@;
                assert forall|k: int| 0 <= k < s.len() implies !(#[trigger] pixel_x(k) == x
                    && pixel_y(k) == y) by {
                    assert(k / 4 < 5184);
                    assert(0 <= (k / 4) % 72 < 72);
                    assert((k / 4) / 72 < 72);
                }
                assert(paint(s, point(x as int, y as int), c) =~= s);
            }
            return;
        }
        let i: usize = (y as usize * WIDTH + x as usize) * 4;
        let ghost s = self.buf@;
        self.buf.set(i, c.0);
        self.buf.set(i + 1, c.1);
        self.buf.set(i + 2, c.2);
        self.buf.set(i + 3, 255);
        proof {
            assert forall|k: int| 0 <= k < s.len() implies #[trigger] self.buf@[k] == paint(
                s,
                point(x as int, y as int),
                c,
            )[k] by {
                lemma_pixel_of_byte(k, x as int, y as int);
            }
            assert(self.buf@ =~= paint(s, point(x as int, y as int), c));
        }
    }

    /// Fill the rectangle with corner `(x, y)`, width `w` and height `h` with
    /// the opaque colour `c`, clipped to the image; an empty rectangle
    /// (`w <= 0` or `h <= 0`) changes nothing.
    pub fn fill_rect(&mut self, x: i32, y: i32, w: i32, h: i32, c: Rgb)
        requires
            old(self).buf@.len() == BUF_LEN,
            i32::MIN <= y + h <= i32::MAX,
            h > 0 ==> i32::MIN <= x + w <= i32::MAX,
        ensures
            final(self).buf@.len() == BUF_LEN,
            final(self).buf@ == paint(old(self).buf@, rect(x as int, y as int, w as int, h as int), c),
    {
        let ghost s0 = self.buf@;
        let y_end: i32 = y + h;
        let mut yy: i32 = y;
        proof {
            lemma_paint_same_region(s0, nowhere(), rect(x as int, y as int, w as int, 0), c);
            crate::pixels::lemma_paint_nowhere(s0, c);
        }
        while yy < y_end
            invariant
                self.buf@.len() == BUF_LEN,
                y_end == y + h,
                y <= yy,
                yy <= y_end || yy == y,
                h > 0 ==> i32::MIN <= x + w <= i32::MAX,
                self.buf@ == paint(s0, rect(x as int, y as int, w as int, yy - y), c),
            decreases y_end - yy,
        {
            let x_end: i32 = x + w;
            let mut xx: i32 = x;
            let ghost above = rect(x as int, y as int, w as int, yy - y);
            proof {
                lemma_paint_same_region(
                    s0,
                    above,
                    union(above, rect(x as int, yy as int, 0, 1)),
                    c,
                );
            }
            while xx < x_end
                invariant
                    self.buf@.len() == BUF_LEN,
                    x_end == x + w,
                    x <= xx,
                    xx <= x_end || xx == x,
                    above == rect(x as int, y as int, w as int, yy - y),
                    self.buf@ == paint(s0, union(above, rect(x as int, yy as int, xx - x, 1)), c),
                decreases x_end - xx,
            {
                let ghost before = self.buf@;
                self.put_pixel(xx, yy, c);
                proof {
                    let r = union(above, rect(x as int, yy as int, xx - x, 1));
                    lemma_paint_union(s0, r, point(xx as int, yy as int), c);
                    lemma_paint_same_region(
                        s0,
                        union(r, point(xx as int, yy as int)),
                        union(above, rect(x as int, yy as int, xx + 1 - x, 1)),
                        c,
                    );
                }
                xx = xx + 1;
            }
            proof {
                lemma_paint_same_region(
                    s0,
                    union(above, rect(x as int, yy as int, xx - x, 1)),
                    rect(x as int, y as int, w as int, yy + 1 - y),
                    c,
                );
            }
            yy = yy + 1;
        }
        proof {
            lemma_paint_same_region(
                s0,
                rect(x as int, y as int, w as int, yy - y),
                rect(x as int, y as int, w as int, h as int),
                c,
            );
        }
    }

    /// Draw `text` with its top-left corner at `(x, y)` in the built-in 5x7
    /// font, each font cell a `scale` x `scale` square of the opaque colour
    /// `c`; every character (a space and a character the font lacks too)
    /// advances six cells.
    pub fn draw_text(&mut self, text: &str, x: i32, y: i32, scale: i32, c: Rgb)
        requires
            old(self).buf@.len() == BUF_LEN,
            text@.len() > 0 ==> i32::MIN <= 6 * scale <= i32::MAX,
            text@.len() > 0 ==> i32::MIN <= x + 6 * scale * text@.len() <= i32::MAX,
            has_glyph(text@) ==> i32::MIN <= y + 7 * scale <= i32::MAX,
        ensures
            final(self).buf@.len() == BUF_LEN,
            final(self).buf@ == paint(old(self).buf@, text_region(text@, x as int, y as int, scale as int), c),
    {
        let ghost s0 = self.buf@;
        let ghost t = text@;
        let ghost (gx, gy, gs) = (x as int, y as int, scale as int);
        let n = text.unicode_len();
        let mut cx: i32 = x;
        let mut i: usize = 0;
        proof {
            lemma_chars_start(t, gx, gy, gs);
            lemma_paint_same_region(s0, nowhere(), chars_before(t, gx, gy, gs, 0), c);
            crate::pixels::lemma_paint_nowhere(s0, c);
        }
        while i < n
            invariant
                n == t.len(),
                t == text@,
                gx == x,
                gy == y,
                gs == scale,
                i <= n,
                cx == x + 6 * scale * i,
                self.buf@.len() == BUF_LEN,
                n > 0 ==> i32::MIN <= 6 * scale <= i32::MAX,
                n > 0 ==> i32::MIN <= x + 6 * scale * n <= i32::MAX,
                has_glyph(t) ==> i32::MIN <= y + 7 * scale <= i32::MAX,
                self.buf@ == paint(s0, chars_before(t, gx, gy, gs, i as int), c),
            decreases n - i,
        {
            let ch = text.get_char(i);
            proof {
                lemma_between(gx, 6 * gs, i as int, n as int);
                lemma_between(gx, 6 * gs, i + 1, n as int);
                assert(6 * scale * (i + 1) == 6 * scale * i + 6 * scale) by (nonlinear_arith);
            }
            let glyph = if ch == ' ' {
                None
            } else {
                font_get(ch)
            };
            match glyph {
                Some(Glyph(g)) => {
                    proof {
                        assert(has_glyph(t)) by {
                            assert(glyph_rows(t[i as int]) is Some);
                        }
                        lemma_rows_start(t, gx, gy, gs, i as int);
                        lemma_paint_same_region(
                            s0,
                            chars_before(t, gx, gy, gs, i as int),
                            union(chars_before(t, gx, gy, gs, i as int), rows_before(t, gx, gy, gs, i as int, 0)),
                            c,
                        );
                    }
                    let mut row: usize = 0;
                    while row < 7
                        invariant
                            n == t.len(),
                            t == text@,
                            gx == x,
                            gy == y,
                            gs == scale,
                            i < n,
                            row <= 7,
                            glyph_rows(t[i as int]) == Some(g@),
                            cx == x + 6 * scale * i,
                            i32::MIN <= 6 * scale <= i32::MAX,
                            i32::MIN <= y + 7 * scale <= i32::MAX,
                            scale >= 0 ==> x <= cx && cx + 6 * scale <= i32::MAX,
                            scale < 0 ==> i32::MIN <= cx + 6 * scale && cx <= x,
                            self.buf@.len() == BUF_LEN,
                            self.buf@ == paint(
                                s0,
                                union(
                                    chars_before(t, gx, gy, gs, i as int),
                                    rows_before(t, gx, gy, gs, i as int, row as int),
                                ),
                                c,
                            ),
                        decreases 7 - row,
                    {
                        let bits = g[row];
                        let ghost base = union(
                            chars_before(t, gx, gy, gs, i as int),
                            rows_before(t, gx, gy, gs, i as int, row as int),
                        );
                        proof {
                            lemma_cols_start(t, gx, gy, gs, i as int, row as int);
                            lemma_paint_same_region(
                                s0,
                                base,
                                union(base, cols_before(t, gx, gy, gs, i as int, row as int, 0)),
                                c,
                            );
                            lemma_between(gy, gs, row as int, 7);
                            lemma_between(gy, gs, row + 1, 7);
                            lemma_between(0, gs, row as int, 6);
                        }
                        let mut col: u32 = 0;
                        while col < 5
                            invariant
                                n == t.len(),
                                t == text@,
                                gx == x,
                                gy == y,
                                gs == scale,
                                i < n,
                                row < 7,
                                col <= 5,
                                bits == g@[row as int],
                                glyph_rows(t[i as int]) == Some(g@),
                                cx == x + 6 * scale * i,
                                i32::MIN <= 6 * scale <= i32::MAX,
                                scale >= 0 ==> x <= cx && cx + 6 * scale <= i32::MAX,
                                scale < 0 ==> i32::MIN <= cx + 6 * scale && cx <= x,
                                i32::MIN <= y + row * scale <= i32::MAX,
                                i32::MIN <= y + (row + 1) * scale <= i32::MAX,
                                i32::MIN <= row * scale <= i32::MAX,
                                base == union(
                                    chars_before(t, gx, gy, gs, i as int),
                                    rows_before(t, gx, gy, gs, i as int, row as int),
                                ),
                                self.buf@.len() == BUF_LEN,
                                self.buf@ == paint(
                                    s0,
                                    union(base, cols_before(t, gx, gy, gs, i as int, row as int, col as int)),
                                    c,
                                ),
                            decreases 5 - col,
                        {
                            proof {
                                lemma_glyph_bit(bits, col);
                                lemma_between(cx as int, gs, col as int, 6);
                                lemma_between(cx as int, gs, col + 1, 6);
                                lemma_between(0, gs, col as int, 6);
                            }
                            if bits & (1u8 << (4 - col)) != 0 {
                                let px: i32 = cx + col as i32 * scale;
                                let py: i32 = y + row as i32 * scale;
                                proof {
                                    assert((row + 1) * scale == row * scale + scale) by (nonlinear_arith);
                                    assert((col + 1) * scale == col * scale + scale) by (nonlinear_arith);
                                    lemma_cols_lit(t, gx, gy, gs, i as int, row as int, col as int, base);
                                }
                                self.fill_rect(px, py, scale, scale, c);
                                proof {
                                    lemma_paint_union(
                                        s0,
                                        union(base, cols_before(t, gx, gy, gs, i as int, row as int, col as int)),
                                        rect(px as int, py as int, gs, gs),
                                        c,
                                    );
                                    lemma_paint_same_region(
                                        s0,
                                        union(
                                            union(base, cols_before(t, gx, gy, gs, i as int, row as int, col as int)),
                                            rect(px as int, py as int, gs, gs),
                                        ),
                                        union(base, cols_before(t, gx, gy, gs, i as int, row as int, col + 1)),
                                        c,
                                    );
                                }
                            } else {
                                proof {
                                    lemma_cols_skip(t, gx, gy, gs, i as int, row as int, col as int);
                                    lemma_paint_same_region(
                                        s0,
                                        union(base, cols_before(t, gx, gy, gs, i as int, row as int, col as int)),
                                        union(base, cols_before(t, gx, gy, gs, i as int, row as int, col + 1)),
                                        c,
                                    );
                                }
                            }
                            col = col + 1;
                        }
                        proof {
                            lemma_row_done(t, gx, gy, gs, i as int, row as int);
                            lemma_paint_same_region(
                                s0,
                                union(base, cols_before(t, gx, gy, gs, i as int, row as int, 5)),
                                union(
                                    chars_before(t, gx, gy, gs, i as int),
                                    rows_before(t, gx, gy, gs, i as int, row + 1),
                                ),
                                c,
                            );
                        }
                        row = row + 1;
                    }
                    proof {
                        lemma_char_done(t, gx, gy, gs, i as int);
                        lemma_paint_same_region(
                            s0,
                            union(chars_before(t, gx, gy, gs, i as int), rows_before(t, gx, gy, gs, i as int, 7)),
                            chars_before(t, gx, gy, gs, i + 1),
                            c,
                        );
                    }
                },
                None => {
                    proof {
                        lemma_char_blank(t, gx, gy, gs, i as int);
                        lemma_paint_same_region(
                            s0,
                            chars_before(t, gx, gy, gs, i as int),
                            chars_before(t, gx, gy, gs, i + 1),
                            c,
                        );
                    }
                },
            }
            proof {
                assert(6 * scale * (i + 1) == 6 * scale * i + 6 * scale) by (nonlinear_arith);
            }
            cx = cx + 6 * scale;
            i = i + 1;
        }
        proof {
            lemma_chars_all(t, gx, gy, gs);
            lemma_paint_same_region(s0, chars_before(t, gx, gy, gs, n as int), text_region(t, gx, gy, gs), c);
        }
    }

    /// Width in pixels of `text` drawn with cell size `scale`: six cells per
    /// character.
    pub fn text_width(text: &str, scale: i32) -> (w: i32)
        requires
            6 * text@.len() <= i32::MAX,
            i32::MIN <= 6 * text@.len() * scale <= i32::MAX,
        ensures
            w == 6 * text@.len() * scale,
    {
        let n = text.unicode_len() as i32;
        n * 6 * scale
    }
}

/// The label shown for a usage window: `WK` for `week`, `MO` for `month`,
/// `5H` for anything else.
pub open spec fn window_label(window: Seq<char>) -> Seq<char> {
    if window == "week"@ {
        "WK"@
    } else if window == "month"@ {
        "MO"@
    } else {
        "5H"@
    }
}

/// The label shown for a usage window.
pub fn label_for_window(window: &str) -> (label: &'static str)
    ensures
        label@ == window_label(window@),
{
    if str_eq(window, "week") {
        "WK"
    } else if str_eq(window, "month") {
        "MO"
    } else {
        "5H"
    }
}

/// Colour of a progress bar: red from the red threshold up, yellow from the
/// yellow threshold up, green below.
pub open spec fn bar_colour(percent: u8, yellow: u8, red: u8) -> Rgb {
    if percent >= red {
        (255, 60, 60)
    } else if percent >= yellow {
        (235, 195, 30)
    } else {
        (60, 200, 90)
    }
}

/// Colour of a progress bar at `percent`.
pub fn bar_color(percent: u8, yellow: u8, red: u8) -> (c: Rgb)
    ensures
        c == bar_colour(percent, yellow, red),
{
    if percent >= red {
        (255, 60, 60)
    } else if percent >= yellow {
        (235, 195, 30)
    } else {
        (60, 200, 90)
    }
}

/// `w * percent / 100` rounded to the nearest integer, halves away from zero.
pub open spec fn rounded_share(w: int, percent: int) -> int {
    if w * percent >= 0 {
        (w * percent + 50) / 100
    } else {
        -((-(w * percent) + 50) / 100)
    }
}

/// Width of the filled part of a bar `w` pixels wide at `percent`: the share
/// `w * percent / 100` rounded to the nearest integer, halves away from zero.
/// The bar computes this share in single precision; while
/// `|w * percent| <= 2^24` (what `draw_progress_bar` admits) the product is
/// exact and the rounded quotient is this integer, beyond that single
/// precision loses digits and the two can differ.
pub open spec fn filled_width(w: int, percent: int) -> int {
    rounded_share(w, percent)
}

/// Largest `|w * percent|` for which single-precision arithmetic computes a
/// bar's filled width exactly (2^24).
pub open spec fn exact_share_limit() -> int {
    16777216
}

/// The background colour of a progress bar's track.
pub open spec fn track_colour() -> Rgb {
    (45, 45, 45)
}

/// A progress bar: the whole rectangle in the track colour, then its left
/// part, `filled_width(w, percent)` wide, in the bar colour.
pub open spec fn progress_bar(
    s: Seq<u8>,
    x: int,
    y: int,
    w: int,
    h: int,
    percent: u8,
    yellow: u8,
    red: u8,
) -> Seq<u8> {
    paint(
        paint(s, rect(x, y, w, h), track_colour()),
        rect(x, y, filled_width(w, percent as int), h),
        bar_colour(percent, yellow, red),
    )
}

/// A bar narrower than 101 pixels fills at most three times its width.
proof fn lemma_filled_width_small(w: int, percent: int)
    requires
        0 <= w <= 100,
        0 <= percent <= 255,
    ensures
        0 <= filled_width(w, percent) <= 3 * w,
        filled_width(w, percent) == (w * percent + 50) / 100,
{
    assert(0 <= w * percent <= w * 255) by (nonlinear_arith)
        requires
            0 <= w <= 100,
            0 <= percent <= 255,
    ;
}

/// Draw a progress bar at `percent`.
fn draw_progress_bar(
    canvas: &mut Canvas,
    x: i32,
    y: i32,
    w: i32,
    h: i32,
    percent: u8,
    yellow: u8,
    red: u8,
)
    requires
        old(canvas).buf@.len() == BUF_LEN,
        -exact_share_limit() <= w * percent <= exact_share_limit(),
        i32::MIN <= y + h <= i32::MAX,
        h > 0 ==> i32::MIN <= x + w <= i32::MAX,
        h > 0 && filled_width(w as int, percent as int) > 0 ==> x + filled_width(
            w as int,
            percent as int,
        ) <= i32::MAX,
    ensures
        final(canvas).buf@.len() == BUF_LEN,
        final(canvas).buf@ == progress_bar(
            old(canvas).buf@,
            x as int,
            y as int,
            w as int,
            h as int,
            percent,
            yellow,
            red,
        ),
{
    let color = bar_color(percent, yellow, red);
    canvas.fill_rect(x, y, w, h, (45, 45, 45));
    let product: i64 = w as i64 * percent as i64;
    let rounded: i64 = if product >= 0 {
        (product + 50) / 100
    } else {
        -((-product + 50) / 100)
    };
    let filled: i32 = rounded as i32;
    assert(filled == filled_width(w as int, percent as int));
    if filled > 0 {
        canvas.fill_rect(x, y, filled, h, color);
    } else {
        proof {
            let s = canvas.buf@;
            lemma_paint_same_region(s, rect(x as int, y as int, filled as int, h as int), nowhere(), color);
            crate::pixels::lemma_paint_nowhere(s, color);
        }
    }
}

/// The text of a percentage: its decimal digits and `%`.
pub open spec fn percent_label(percent: u8) -> Seq<char> {
    decimal(percent as nat).push('%')
}

/// The key image of one usage window drawn on `s`: the window's label at the
/// top left, the percentage centred in large type, the bar along the bottom.
pub open spec fn single_image(
    s: Seq<u8>,
    percent: u8,
    window: Seq<char>,
    font: Rgb,
    yellow: u8,
    red: u8,
) -> Seq<u8> {
    let labelled = paint(s, text_region(window_label(window), 4, 4, 2), font);
    let t = percent_label(percent);
    let tx = (72 - 18 * t.len()) / 2;
    let valued = paint(labelled, text_region(t, tx, 25, 3), font);
    progress_bar(valued, 6, 62, 60, 8, percent, yellow, red)
}

/// The text of a percentage.
pub fn percent_text(percent: u8) -> (t: String)
    ensures
        t@ == percent_label(percent),
{
    let mut t = u8_decimal(percent);
    t.append("%");
    proof {
        reveal_strlit("%");
        assert(t@ =~= percent_label(percent));
    }
    t
}

/// Draw the key image of one usage window.
fn render_single(
    canvas: &mut Canvas,
    percent: u8,
    window: &str,
    font: Rgb,
    yellow: u8,
    red: u8,
)
    requires
        old(canvas).buf@.len() == BUF_LEN,
    ensures
        final(canvas).buf@.len() == BUF_LEN,
        final(canvas).buf@ == single_image(old(canvas).buf@, percent, window@, font, yellow, red),
{
    let label = label_for_window(window);
    proof {
        reveal_strlit("WK");
        reveal_strlit("MO");
        reveal_strlit("5H");
    }
    canvas.draw_text(label, 4, 4, 2, font);

    let text = percent_text(percent);
    proof {
        lemma_decimal_len(percent as nat);
    }
    let scale: i32 = 3;
    let tw = Canvas::text_width(text.as_str(), scale);
    let tx = (HEIGHT as i32 - tw) / 2;
    let th = 7 * scale;
    let ty0 = (HEIGHT as i32 - th) / 2;
    let ty = if ty0 > 0 {
        ty0
    } else {
        0
    };
    canvas.draw_text(text.as_str(), tx, ty, scale, font);
    proof {
        lemma_filled_width_small(60, percent as int);
    }
    draw_progress_bar(canvas, 6, 62, 60, 8, percent, yellow, red);
}

/// One row of the summary image drawn on `s`: the label at the left of row
/// `i`, its bar to the right (an absent value shows as 0%).
pub open spec fn summary_row(
    s: Seq<u8>,
    i: int,
    label: Seq<char>,
    value: Option<u8>,
    font: Rgb,
    yellow: u8,
    red: u8,
) -> Seq<u8> {
    let y = 4 + 22 * i;
    let pct = match value {
        Some(p) => p,
        None => 0u8,
    };
    progress_bar(paint(s, text_region(label, 4, y, 2), font), 28, y + 4, 40, 6, pct, yellow, red)
}

/// The first rows of the summary image drawn on `s`, top to bottom.
pub open spec fn summary_rows(
    s: Seq<u8>,
    rows: Seq<(Seq<char>, Option<u8>)>,
    font: Rgb,
    yellow: u8,
    red: u8,
) -> Seq<u8>
    decreases rows.len(),
{
    if rows.len() == 0 {
        s
    } else {
        summary_row(
            summary_rows(s, rows.drop_last(), font, yellow, red),
            rows.len() - 1,
            rows.last().0,
            rows.last().1,
            font,
            yellow,
            red,
        )
    }
}

/// The summary image drawn on `s`: rows `5H`, `WK` and `MO` for the rolling,
/// weekly and monthly windows.
pub open spec fn summary_image(
    s: Seq<u8>,
    rolling: Option<u8>,
    weekly: Option<u8>,
    monthly: Option<u8>,
    font: Rgb,
    yellow: u8,
    red: u8,
) -> Seq<u8> {
    summary_rows(s, seq![("5H"@, rolling), ("WK"@, weekly), ("MO"@, monthly)], font, yellow, red)
}

/// Draw the summary image.
fn render_summary(
    canvas: &mut Canvas,
    rolling: Option<u8>,
    weekly: Option<u8>,
    monthly: Option<u8>,
    font: Rgb,
    yellow: u8,
    red: u8,
)
    requires
        old(canvas).buf@.len() == BUF_LEN,
    ensures
        final(canvas).buf@.len() == BUF_LEN,
        final(canvas).buf@ == summary_image(old(canvas).buf@, rolling, weekly, monthly, font, yellow, red),
{
    let rows: [(&str, Option<u8>); 3] = [("5H", rolling), ("WK", weekly), ("MO", monthly)];
    let ghost s0 = canvas.buf@;
    let ghost spec_rows = seq![("5H"@, rolling), ("WK"@, weekly), ("MO"@, monthly)];
    proof {
        reveal_strlit("WK");
        reveal_strlit("MO");
        reveal_strlit("5H");
        assert(spec_rows.take(0) =~= Seq::<(Seq<char>, Option<u8>)>::empty());
    }
    let mut i: usize = 0;
    while i < 3
        invariant
            i <= 3,
            rows@.len() == 3,
            forall|j: int| 0 <= j < 3 ==> (#[trigger] rows@[j]).0@ == spec_rows[j].0 && rows@[j].1 == spec_rows[j].1,
            forall|j: int| 0 <= j < 3 ==> (#[trigger] rows@[j]).0@.len() == 2,
            spec_rows == seq![("5H"@, rolling), ("WK"@, weekly), ("MO"@, monthly)],
            canvas.buf@.len() == BUF_LEN,
            canvas.buf@ == summary_rows(s0, spec_rows.take(i as int), font, yellow, red),
        decreases 3 - i,
    {
        let (label, pct) = rows[i];
        let y: i32 = 4 + i as i32 * 22;
        canvas.draw_text(label, 4, y, 2, font);
        let value = match pct {
            Some(p) => p,
            None => 0,
        };
        proof {
            lemma_filled_width_small(40, value as int);
        }
        draw_progress_bar(canvas, 28, y + 4, 40, 6, value, yellow, red);
        proof {
            assert(spec_rows.take(i + 1).drop_last() =~= spec_rows.take(i as int));
        }
        i = i + 1;
    }
    assert(spec_rows.take(3) =~= spec_rows);
}

/// What a key shows: one usage window, or all three.
pub enum Layout {
    Single { percent: u8, window: String },
    Summary { rolling: Option<u8>, weekly: Option<u8>, monthly: Option<u8> },
}

impl Layout {
    /// A layout showing one usage window at `percent`.
    pub fn single(percent: u8, window: &str) -> (layout: Self)
        ensures
            layout matches Layout::Single { percent: p, window: w } && p == percent && w@ == window@,
    {
        Layout::Single { percent, window: String::from_str(window) }
    }

    /// A layout showing the three usage windows.
    pub fn summary(rolling: Option<u8>, weekly: Option<u8>, monthly: Option<u8>) -> (layout: Self)
        ensures
            layout == (Layout::Summary { rolling, weekly, monthly }),
    {
        Layout::Summary { rolling, weekly, monthly }
    }
}

/// The key image of `layout` on a fresh background.
pub open spec fn layout_image(layout: Layout, font: Rgb, yellow: u8, red: u8) -> Seq<u8> {
    match layout {
        Layout::Single { percent, window } => single_image(
            background(),
            percent,
            window@,
            font,
            yellow,
            red,
        ),
        Layout::Summary { rolling, weekly, monthly } => summary_image(
            background(),
            rolling,
            weekly,
            monthly,
            font,
            yellow,
            red,
        ),
    }
}

/// The bytes of the PNG file that the png crate writes for an 8-bit RGBA
/// image of the given size and pixels (default filter and compression).
pub uninterp spec fn png_rgba8(width: u32, height: u32, pixels: Seq<u8>) -> Seq<u8>;

/// Calls `png::Encoder::new`, `set_color(Rgba)`, `set_depth(Eight)`,
/// `write_header` and `Writer::write_image_data` on a `Vec<u8>`, and returns
/// what was written. Claimed: the result is `png_rgba8` of the arguments
/// (the encoder's output depends on them alone). The encoder refuses a zero
/// width or height and a pixel buffer whose length is not
/// `width * height * 4`, which the `requires` rules out; writing to a vector
/// does not fail.
#[verifier::external_body]
fn png_encode_rgba8(width: u32, height: u32, pixels: &[u8]) -> (png: Vec<u8>)
    requires
        width > 0,
        height > 0,
        pixels@.len() == width * height * 4,
    ensures
        png@ == png_rgba8(width, height, pixels@),
{
    let mut out: Vec<u8> = Vec::new();
    {
        let mut encoder = png::Encoder::new(&mut out, width, height);
        encoder.set_color(png::ColorType::Rgba);
        encoder.set_depth(png::BitDepth::Eight);
        let mut writer = encoder.write_header().expect("png header");
        writer.write_image_data(pixels).expect("png data");
    }
    out
}

/// Encode a key image as PNG.
fn encode_png(buf: &[u8]) -> (png: Vec<u8>)
    requires
        buf@.len() == BUF_LEN,
    ensures
        png@ == png_rgba8(72, 72, buf@),
{
    png_encode_rgba8(WIDTH as u32, HEIGHT as u32, buf)
}

/// Symbol `v` (for `0 <= v < 64`) of the standard base64 alphabet of RFC 4648.
pub open spec fn base64_symbol(v: int) -> char {
    if v < 26 {
        (65 + v) as char
    } else if v < 52 {
        (97 + v - 26) as char
    } else if v < 62 {
        (48 + v - 52) as char
    } else if v == 62 {
        '+'
    } else {
        '/'
    }
}

/// Base64 with the standard alphabet and `=` padding (RFC 4648, section 4):
/// every three bytes become four symbols of six bits each, most significant
/// first; a final group of one or two bytes is padded with zero bits and
/// completed with `==` or `=`.
pub open spec fn base64_standard(b: Seq<u8>) -> Seq<char>
    decreases b.len(),
{
    if b.len() == 0 {
        seq![]
    } else if b.len() == 1 {
        let n = b[0] as int;
        seq![base64_symbol(n / 4), base64_symbol((n % 4) * 16), '=', '=']
    } else if b.len() == 2 {
        let n = b[0] as int * 256 + b[1] as int;
        seq![base64_symbol(n / 1024), base64_symbol((n / 16) % 64), base64_symbol((n % 16) * 4), '=']
    } else {
        let n = b[0] as int * 65536 + b[1] as int * 256 + b[2] as int;
        seq![
            base64_symbol(n / 262144),
            base64_symbol((n / 4096) % 64),
            base64_symbol((n / 64) % 64),
            base64_symbol(n % 64),
        ] + base64_standard(b.skip(3))
    }
}

/// Calls `Engine::encode` of `base64::engine::general_purpose::STANDARD`.
/// Claimed: the result is the padded standard base64 of the bytes. The engine
/// panics only when the encoded length overflows `usize`, which no slice is
/// long enough to cause (a slice holds at most `isize::MAX` bytes).
#[verifier::external_body]
fn base64_encode(bytes: &[u8]) -> (s: String)
    ensures
        s@ == base64_standard(bytes@),
{
    base64::engine::general_purpose::STANDARD.encode(bytes)
}

/// The `data:` URL of a PNG file.
pub open spec fn png_data_url(png: Seq<u8>) -> Seq<char> {
    "data:image/png;base64,"@ + base64_standard(png)
}

/// The `data:` URL of a PNG file: `data:image/png;base64,` and the padded
/// standard base64 of its bytes.
pub fn to_data_url(png: Vec<u8>) -> (url: String)
    ensures
        url@ == png_data_url(png@),
{
    let b64 = base64_encode(png.as_slice());
    let mut url = String::from_str("data:image/png;base64,");
    url.append(b64.as_str());
    url
}

/// The PNG file of the key image of `layout`, with text in colour `font` and
/// bars coloured by the thresholds `yellow` and `red`.
pub fn render_png_bytes(layout: &Layout, font: Rgb, yellow: u8, red: u8) -> (png: Vec<u8>)
    ensures
        png@ == png_rgba8(72, 72, layout_image(*layout, font, yellow, red)),
{
    let mut canvas = Canvas::new();
    match layout {
        Layout::Single { percent, window } => {
            render_single(&mut canvas, *percent, window.as_str(), font, yellow, red);
        },
        Layout::Summary { rolling, weekly, monthly } => {
            render_summary(&mut canvas, *rolling, *weekly, *monthly, font, yellow, red);
        },
    }
    encode_png(canvas.buf.as_slice())
}

/// The key image of `layout` as a PNG `data:` URL.
pub fn render(layout: &Layout, font: Rgb, yellow: u8, red: u8) -> (url: String)
    ensures
        url@ == png_data_url(png_rgba8(72, 72, layout_image(*layout, font, yellow, red))),
{
    to_data_url(render_png_bytes(layout, font, yellow, red))
}

/// An empty bar at 0%, a full one at 100%, and in between a filled part that
/// stays within the track.
pub proof fn lemma_bar_fill_bounds(w: i32, percent: int)
    ensures
        filled_width(w as int, 0) == 0,
        filled_width(w as int, 100) == w,
        0 <= w && 0 <= percent <= 100 ==> 0 <= filled_width(w as int, percent) <= w,
{
    assert(w * 100 + 50 == 100 * w + 50);
    if w >= 0 {
        assert((100 * w + 50) / 100 == w);
    } else {
        assert((-(w * 100) + 50) / 100 == -w);
    }
    if 0 <= w && 0 <= percent <= 100 {
        assert(0 <= w * percent <= w * 100) by (nonlinear_arith)
            requires
                0 <= w,
                0 <= percent <= 100,
        ;
    }
}

/// A larger percentage never fills less of a bar.
pub proof fn lemma_bar_fill_monotone(w: i32, p: int, q: int)
    requires
        0 <= w,
        0 <= p <= q,
    ensures
        filled_width(w as int, p) <= filled_width(w as int, q),
{
    assert(0 <= w * p <= w * q) by (nonlinear_arith)
        requires
            0 <= w,
            0 <= p <= q,
    ;
}

/// Text drawn with a positive cell size stays inside the box whose width is
/// `text_width` and whose height is seven cells.
pub proof fn lemma_text_within_width(text: Seq<char>, x: int, y: int, scale: int, px: int, py: int)
    requires
        scale > 0,
        text_region(text, x, y, scale)(px, py),
    ensures
        x <= px < x + 6 * text.len() * scale,
        y <= py < y + 7 * scale,
{
    let (i, row, col) = choose|i: int, row: int, col: int|
        #[trigger] text_cell(text, x, y, scale, i, row, col, px, py);
    assert(text_cell(text, x, y, scale, i, row, col, px, py));
    assert(0 <= 6 * scale * i + col * scale && 6 * scale * i + col * scale + scale <= 6 * text.len() * scale) by (nonlinear_arith)
        requires
            scale > 0,
            0 <= i < text.len(),
            0 <= col < 5,
    ;
    assert(0 <= row * scale && row * scale + scale <= 7 * scale) by (nonlinear_arith)
        requires
            scale > 0,
            0 <= row < 7,
    ;
}

/// A fresh key image is opaque.
pub proof fn lemma_background_opaque()
    ensures
        opaque_raster(background()),
{
}

/// The summary rows keep an opaque image opaque.
proof fn lemma_summary_rows_opaque(
    s: Seq<u8>,
    rows: Seq<(Seq<char>, Option<u8>)>,
    font: Rgb,
    yellow: u8,
    red: u8,
)
    requires
        opaque_raster(s),
    ensures
        opaque_raster(summary_rows(s, rows, font, yellow, red)),
    decreases rows.len(),
{
    if rows.len() > 0 {
        lemma_summary_rows_opaque(s, rows.drop_last(), font, yellow, red);
    }
}

/// Every pixel of every key image is fully opaque.
pub proof fn lemma_key_image_opaque(layout: Layout, font: Rgb, yellow: u8, red: u8)
    ensures
        opaque_raster(layout_image(layout, font, yellow, red)),
{
    match layout {
        Layout::Single { .. } => {},
        Layout::Summary { rolling, weekly, monthly } => {
            lemma_summary_rows_opaque(
                background(),
                seq![("5H"@, rolling), ("WK"@, weekly), ("MO"@, monthly)],
                font,
                yellow,
                red,
            );
        },
    }
}

/// Writing `a` followed by `b` covers the pixels of `a` at `(x, y)` and of
/// `b` one text width of `a` further right: each character takes six cells.
pub proof fn lemma_text_region_concat(a: Seq<char>, b: Seq<char>, x: int, y: int, scale: int)
    ensures
        forall|px: int, py: int|
            #[trigger] text_region(a + b, x, y, scale)(px, py) == union(
                text_region(a, x, y, scale),
                text_region(b, x + 6 * a.len() * scale, y, scale),
            )(px, py),
{
    let ab = a + b;
    let xb = x + 6 * a.len() * scale;
    assert forall|px: int, py: int| #[trigger] text_region(ab, x, y, scale)(px, py) implies union(
        text_region(a, x, y, scale),
        text_region(b, xb, y, scale),
    )(px, py) by {
        let (i, row, col) = choose|i: int, row: int, col: int|
            #[trigger] text_cell(ab, x, y, scale, i, row, col, px, py);
        if i < a.len() {
            assert(ab[i] == a[i]);
            assert(text_cell(a, x, y, scale, i, row, col, px, py));
        } else {
            let j = i - a.len();
            assert(ab[i] == b[j]);
            assert(x + 6 * scale * i == xb + 6 * scale * j) by (nonlinear_arith)
                requires
                    xb == x + 6 * a.len() * scale,
                    j == i - a.len(),
            ;
            assert(text_cell(b, xb, y, scale, j, row, col, px, py));
        }
    }
    assert forall|px: int, py: int|
        #[trigger] union(text_region(a, x, y, scale), text_region(b, xb, y, scale))(
            px,
            py,
        ) implies text_region(ab, x, y, scale)(px, py) by {
        if text_region(a, x, y, scale)(px, py) {
            let (i, row, col) = choose|i: int, row: int, col: int|
                #[trigger] text_cell(a, x, y, scale, i, row, col, px, py);
            assert(ab[i] == a[i]);
            assert(text_cell(ab, x, y, scale, i, row, col, px, py));
        } else {
            let (j, row, col) = choose|j: int, row: int, col: int|
                #[trigger] text_cell(b, xb, y, scale, j, row, col, px, py);
            let i = j + a.len();
            assert(ab[i] == b[j]);
            assert(x + 6 * scale * i == xb + 6 * scale * j) by (nonlinear_arith)
                requires
                    xb == x + 6 * a.len() * scale,
                    i == j + a.len(),
            ;
            assert(text_cell(ab, x, y, scale, i, row, col, px, py));
        }
    }
}

/// Drawing the concatenation `a + b` at `(x, y)` gives the same image as
/// drawing `a` at `(x, y)` and then `b` at `x` plus the text width of `a`.
pub proof fn lemma_draw_text_concat(
    s: Seq<u8>,
    a: Seq<char>,
    b: Seq<char>,
    x: int,
    y: int,
    scale: int,
    c: Rgb,
)
    ensures
        paint(s, text_region(a + b, x, y, scale), c) == paint(
            paint(s, text_region(a, x, y, scale), c),
            text_region(b, x + 6 * a.len() * scale, y, scale),
            c,
        ),
{
    lemma_text_region_concat(a, b, x, y, scale);
    lemma_paint_union(s, text_region(a, x, y, scale), text_region(b, x + 6 * a.len() * scale, y, scale), c);
    lemma_paint_same_region(
        s,
        text_region(a + b, x, y, scale),
        union(text_region(a, x, y, scale), text_region(b, x + 6 * a.len() * scale, y, scale)),
        c,
    );
}

/// The font draws every character of every percentage and every window
/// label that a key shows.
pub proof fn lemma_labels_fully_drawn(percent: u8, window: Seq<char>)
    ensures
        forall|i: int|
            0 <= i < percent_label(percent).len() ==> (#[trigger] glyph_rows(
                percent_label(percent)[i],
            )) is Some,
        forall|i: int|
            0 <= i < window_label(window).len() ==> (#[trigger] glyph_rows(window_label(window)[i])) is Some,
{
    crate::text::lemma_decimal_spells_value(percent as nat);
    let t = percent_label(percent);
    assert forall|i: int| 0 <= i < t.len() implies (#[trigger] glyph_rows(t[i])) is Some by {
        if i < t.len() - 1 {
            let ch = decimal(percent as nat)[i];
            assert(t[i] == ch);
            assert('0' <= ch <= '9');
            assert(ch == '0' || ch == '1' || ch == '2' || ch == '3' || ch == '4' || ch == '5' || ch
                == '6' || ch == '7' || ch == '8' || ch == '9');
        }
    }
    reveal_strlit("WK");
    reveal_strlit("MO");
    reveal_strlit("5H");
}

/// How alarming a bar colour is: green 0, yellow 1, red 2.
pub open spec fn severity(c: Rgb) -> int {
    if c == (255u8, 60u8, 60u8) {
        2
    } else if c == (235u8, 195u8, 30u8) {
        1
    } else {
        0
    }
}

/// With the yellow threshold at or below the red one, more usage never shows
/// a milder colour, and the colour changes only at the two thresholds.
pub proof fn lemma_bar_colour_monotone(p1: u8, p2: u8, yellow: u8, red: u8)
    requires
        yellow <= red,
        p1 <= p2,
    ensures
        severity(bar_colour(p1, yellow, red)) <= severity(bar_colour(p2, yellow, red)),
        severity(bar_colour(p1, yellow, red)) == if p1 >= red {
            2int
        } else if p1 >= yellow {
            1int
        } else {
            0int
        },
{
}

/// Pixel `(x, y)` of `img` is opaque and shows the colour a bar at `percent`
/// has under the thresholds: red (255, 60, 60) from `red` up, yellow
/// (235, 195, 30) from `yellow` up, green (60, 200, 90) below.
pub open spec fn shows_threshold_colour(img: Seq<u8>, x: int, y: int, percent: u8, yellow: u8, red: u8) -> bool {
    let o = pixel_offset(x, y);
    let (r, g, b) = if percent >= red {
        (255u8, 60u8, 60u8)
    } else if percent >= yellow {
        (235u8, 195u8, 30u8)
    } else {
        (60u8, 200u8, 90u8)
    };
    &&& img[o] == r
    &&& img[o + 1] == g
    &&& img[o + 2] == b
    &&& img[o + 3] == 255
}

/// Byte `j` of pixel `(x, y)` after painting: the colour's channel when the
/// region holds the pixel, the old byte otherwise.
proof fn lemma_paint_pixel(s: Seq<u8>, region: spec_fn(int, int) -> bool, c: Rgb, x: int, y: int, j: int)
    requires
        s.len() == BUF_LEN,
        0 <= x < 72,
        0 <= y < 72,
        0 <= j < 4,
    ensures
        paint(s, region, c)[pixel_offset(x, y) + j] == if region(x, y) {
            crate::pixels::channel(c, j)
        } else {
            s[pixel_offset(x, y) + j]
        },
{
    lemma_pixel_of_byte(pixel_offset(x, y) + j, x, y);
}

/// The left end of a bar shows the bar colour once the bar fills a pixel.
proof fn lemma_bar_left_end(
    s: Seq<u8>,
    x: int,
    y: int,
    w: int,
    h: int,
    percent: u8,
    yellow: u8,
    red: u8,
)
    requires
        s.len() == BUF_LEN,
        0 <= x < 72,
        0 <= y < 72,
        h > 0,
        filled_width(w, percent as int) > 0,
    ensures
        shows_threshold_colour(progress_bar(s, x, y, w, h, percent, yellow, red), x, y, percent, yellow, red),
{
    let t = paint(s, rect(x, y, w, h), track_colour());
    let c = bar_colour(percent, yellow, red);
    lemma_paint_pixel(t, rect(x, y, filled_width(w, percent as int), h), c, x, y, 0);
    lemma_paint_pixel(t, rect(x, y, filled_width(w, percent as int), h), c, x, y, 1);
    lemma_paint_pixel(t, rect(x, y, filled_width(w, percent as int), h), c, x, y, 2);
    lemma_paint_pixel(t, rect(x, y, filled_width(w, percent as int), h), c, x, y, 3);
}

/// The bar of a key showing one window is coloured by the thresholds it is
/// given: its left end at (6, 62) shows the threshold colour of the
/// percentage (from 1%, when the bar fills at least one pixel).
pub proof fn lemma_single_bar_colour(layout: Layout, font: Rgb, yellow: u8, red: u8)
    requires
        layout matches Layout::Single { percent, .. } && percent >= 1,
    ensures
        layout matches Layout::Single { percent, .. } && shows_threshold_colour(
            layout_image(layout, font, yellow, red),
            6,
            62,
            percent,
            yellow,
            red,
        ),
{
    if let Layout::Single { percent, window } = layout {
        let labelled = paint(background(), text_region(window_label(window@), 4, 4, 2), font);
        let t = percent_label(percent);
        let tx = (72 - 18 * t.len()) / 2;
        let valued = paint(labelled, text_region(t, tx, 25, 3), font);
        assert(valued.len() == BUF_LEN);
        lemma_filled_width_small(60, percent as int);
        lemma_bar_left_end(valued, 6, 62, 60, 8, percent, yellow, red);
    }
}

/// In the first rows of a summary image, the bar of row `i` (at value `p`
/// of at least 2%, when it fills a pixel) shows the threshold colour of `p`
/// at its left end (28, 8 + 22 i); later rows do not reach that pixel.
proof fn lemma_summary_rows_bar_colour(
    s: Seq<u8>,
    rows: Seq<(Seq<char>, Option<u8>)>,
    font: Rgb,
    yellow: u8,
    red: u8,
    i: int,
    p: u8,
)
    requires
        s.len() == BUF_LEN,
        rows.len() <= 3,
        0 <= i < rows.len(),
        rows[i].1 == Some(p),
        p >= 2,
    ensures
        summary_rows(s, rows, font, yellow, red).len() == BUF_LEN,
        shows_threshold_colour(summary_rows(s, rows, font, yellow, red), 28, 8 + 22 * i, p, yellow, red),
    decreases rows.len(),
{
    let n = rows.len() - 1;
    let prev = summary_rows(s, rows.drop_last(), font, yellow, red);
    lemma_summary_rows_len(s, rows.drop_last(), font, yellow, red);
    let (label, value) = rows.last();
    let y = 4 + 22 * n;
    let pct = match value {
        Some(q) => q,
        None => 0u8,
    };
    let labelled = paint(prev, text_region(label, 4, y, 2), font);
    if i == n {
        lemma_filled_width_small(40, p as int);
        lemma_bar_left_end(labelled, 28, y + 4, 40, 6, p, yellow, red);
    } else {
        lemma_summary_rows_bar_colour(s, rows.drop_last(), font, yellow, red, i, p);
        let py = 8 + 22 * i;
        if text_region(label, 4, y, 2)(28, py) {
            lemma_text_within_width(label, 4, y, 2, 28, py);
        }
        let t = paint(labelled, rect(28, y + 4, 40, 6), track_colour());
        let fw = filled_width(40, pct as int);
        let c = bar_colour(pct, yellow, red);
        assert forall|j: int| 0 <= j < 4 implies #[trigger] summary_rows(s, rows, font, yellow, red)[pixel_offset(28, py) + j]
            == prev[pixel_offset(28, py) + j] by {
            lemma_paint_pixel(prev, text_region(label, 4, y, 2), font, 28, py, j);
            lemma_paint_pixel(labelled, rect(28, y + 4, 40, 6), track_colour(), 28, py, j);
            lemma_paint_pixel(t, rect(28, y + 4, fw, 6), c, 28, py, j);
        }
    }
}

/// Summary rows keep the length of the image.
proof fn lemma_summary_rows_len(
    s: Seq<u8>,
    rows: Seq<(Seq<char>, Option<u8>)>,
    font: Rgb,
    yellow: u8,
    red: u8,
)
    ensures
        summary_rows(s, rows, font, yellow, red).len() == s.len(),
    decreases rows.len(),
{
    if rows.len() > 0 {
        lemma_summary_rows_len(s, rows.drop_last(), font, yellow, red);
    }
}

/// Each bar of the summary image is coloured by the thresholds it is given:
/// the left ends of the 5H, WK and MO bars, at (28, 8), (28, 30) and
/// (28, 52), show the threshold colour of their values (from 2%, when a bar
/// fills at least one pixel).
pub proof fn lemma_summary_bar_colours(
    rolling: Option<u8>,
    weekly: Option<u8>,
    monthly: Option<u8>,
    font: Rgb,
    yellow: u8,
    red: u8,
)
    ensures
        rolling matches Some(p) ==> p >= 2 ==> shows_threshold_colour(
            layout_image(Layout::Summary { rolling, weekly, monthly }, font, yellow, red),
            28,
            8,
            p,
            yellow,
            red,
        ),
        weekly matches Some(p) ==> p >= 2 ==> shows_threshold_colour(
            layout_image(Layout::Summary { rolling, weekly, monthly }, font, yellow, red),
            28,
            30,
            p,
            yellow,
            red,
        ),
        monthly matches Some(p) ==> p >= 2 ==> shows_threshold_colour(
            layout_image(Layout::Summary { rolling, weekly, monthly }, font, yellow, red),
            28,
            52,
            p,
            yellow,
            red,
        ),
{
    let rows = seq![("5H"@, rolling), ("WK"@, weekly), ("MO"@, monthly)];
    if let Some(p) = rolling {
        if p >= 2 {
            lemma_summary_rows_bar_colour(background(), rows, font, yellow, red, 0, p);
        }
    }
    if let Some(p) = weekly {
        if p >= 2 {
            lemma_summary_rows_bar_colour(background(), rows, font, yellow, red, 1, p);
        }
    }
    if let Some(p) = monthly {
        if p >= 2 {
            lemma_summary_rows_bar_colour(background(), rows, font, yellow, red, 2, p);
        }
    }
}

/// How each character of the font looks, as a picture: seven rows of five
/// cells, top to bottom and left to right, `#` for a lit cell and `.` for a
/// dark one.
pub open spec fn font_picture(c: char) -> Option<Seq<Seq<char>>> {
    if c == '0' {
        Some(seq![
            seq!['.', '#', '#', '#', '.'],
            seq!['#', '.', '.', '.', '#'],
            seq!['#', '.', '.', '#', '#'],
            seq!['#', '.', '#', '.', '#'],
            seq!['#', '#', '.', '.', '#'],
            seq!['#', '.', '.', '.', '#'],
            seq!['.', '#', '#', '#', '.'],
        ])
    } else if c == '1' {
        Some(seq![
            seq!['.', '.', '.', '#', '.'],
            seq!['.', '.', '#', '#', '.'],
            seq!['.', '.', '.', '#', '.'],
            seq!['.', '.', '.', '#', '.'],
            seq!['.', '.', '.', '#', '.'],
            seq!['.', '.', '.', '#', '.'],
            seq!['.', '.', '#', '#', '#'],
        ])
    } else if c == '2' {
        Some(seq![
            seq!['.', '#', '#', '#', '.'],
            seq!['#', '.', '.', '.', '#'],
            seq!['.', '.', '.', '.', '#'],
            seq!['.', '.', '.', '#', '.'],
            seq!['.', '.', '#', '.', '.'],
            seq!['.', '#', '.', '.', '.'],
            seq!['#', '#', '#', '#', '#'],
        ])
    } else if c == '3' {
        Some(seq![
            seq!['#', '#', '#', '#', '#'],
            seq!['.', '.', '.', '#', '.'],
            seq!['.', '.', '#', '.', '.'],
            seq!['.', '.', '.', '#', '.'],
            seq!['.', '.', '.', '.', '#'],
            seq!['#', '.', '.', '.', '#'],
            seq!['.', '#', '#', '#', '.'],
        ])
    } else if c == '4' {
        Some(seq![
            seq!['.', '.', '.', '#', '.'],
            seq!['.', '.', '#', '#', '.'],
            seq!['.', '#', '.', '#', '.'],
            seq!['#', '.', '.', '#', '.'],
            seq!['#', '#', '#', '#', '#'],
            seq!['.', '.', '.', '#', '.'],
            seq!['.', '.', '.', '#', '.'],
        ])
    } else if c == '5' {
        Some(seq![
            seq!['#', '#', '#', '#', '#'],
            seq!['#', '.', '.', '.', '.'],
            seq!['#', '#', '#', '#', '.'],
            seq!['.', '.', '.', '.', '#'],
            seq!['.', '.', '.', '.', '#'],
            seq!['#', '.', '.', '.', '#'],
            seq!['.', '#', '#', '#', '.'],
        ])
    } else if c == '6' {
        Some(seq![
            seq!['.', '.', '#', '#', '.'],
            seq!['.', '#', '.', '.', '.'],
            seq!['#', '.', '.', '.', '.'],
            seq!['#', '#', '#', '#', '.'],
            seq!['#', '.', '.', '.', '#'],
            seq!['#', '.', '.', '.', '#'],
            seq!['.', '#', '#', '#', '.'],
        ])
    } else if c == '7' {
        Some(seq![
            seq!['#', '#', '#', '#', '#'],
            seq!['.', '.', '.', '.', '#'],
            seq!['.', '.', '.', '#', '.'],
            seq!['.', '.', '#', '.', '.'],
            seq!['.', '#', '.', '.', '.'],
            seq!['.', '#', '.', '.', '.'],
            seq!['.', '#', '.', '.', '.'],
        ])
    } else if c == '8' {
        Some(seq![
            seq!['.', '#', '#', '#', '.'],
            seq!['#', '.', '.', '.', '#'],
            seq!['#', '.', '.', '.', '#'],
            seq!['.', '#', '#', '#', '.'],
            seq!['#', '.', '.', '.', '#'],
            seq!['#', '.', '.', '.', '#'],
            seq!['.', '#', '#', '#', '.'],
        ])
    } else if c == '9' {
        Some(seq![
            seq!['.', '#', '#', '#', '.'],
            seq!['#', '.', '.', '.', '#'],
            seq!['#', '.', '.', '.', '#'],
            seq!['.', '#', '#', '#', '#'],
            seq!['.', '.', '.', '.', '#'],
            seq!['.', '.', '.', '#', '.'],
            seq!['.', '#', '#', '.', '.'],
        ])
    } else if c == 'H' {
        Some(seq![
            seq!['#', '.', '.', '.', '#'],
            seq!['#', '.', '.', '.', '#'],
            seq!['#', '.', '.', '.', '#'],
            seq!['#', '#', '#', '#', '#'],
            seq!['#', '.', '.', '.', '#'],
            seq!['#', '.', '.', '.', '#'],
            seq!['#', '.', '.', '.', '#'],
        ])
    } else if c == 'W' {
        Some(seq![
            seq!['#', '.', '.', '.', '#'],
            seq!['#', '.', '.', '.', '#'],
            seq!['#', '.', '.', '.', '#'],
            seq!['#', '.', '#', '.', '#'],
            seq!['#', '.', '#', '.', '#'],
            seq!['#', '.', '#', '.', '#'],
            seq!['.', '#', '.', '#', '.'],
        ])
    } else if c == 'K' {
        Some(seq![
            seq!['#', '.', '.', '.', '#'],
            seq!['#', '.', '.', '#', '.'],
            seq!['#', '.', '#', '.', '.'],
            seq!['#', '#', '.', '.', '.'],
            seq!['#', '.', '#', '.', '.'],
            seq!['#', '.', '.', '#', '.'],
            seq!['#', '.', '.', '.', '#'],
        ])
    } else if c == 'M' {
        Some(seq![
            seq!['#', '.', '.', '.', '#'],
            seq!['#', '#', '.', '#', '#'],
            seq!['#', '.', '#', '.', '#'],
            seq!['#', '.', '#', '.', '#'],
            seq!['#', '.', '.', '.', '#'],
            seq!['#', '.', '.', '.', '#'],
            seq!['#', '.', '.', '.', '#'],
        ])
    } else if c == 'O' {
        Some(seq![
            seq!['.', '#', '#', '#', '.'],
            seq!['#', '.', '.', '.', '#'],
            seq!['#', '.', '.', '.', '#'],
            seq!['#', '.', '.', '.', '#'],
            seq!['#', '.', '.', '.', '#'],
            seq!['#', '.', '.', '.', '#'],
            seq!['.', '#', '#', '#', '.'],
        ])
    } else if c == '%' {
        Some(seq![
            seq!['#', '.', '.', '.', '.'],
            seq!['#', '.', '.', '.', '#'],
            seq!['.', '.', '.', '#', '.'],
            seq!['.', '.', '#', '.', '.'],
            seq!['.', '#', '.', '.', '.'],
            seq!['#', '.', '.', '.', '#'],
            seq!['.', '.', '.', '.', '#'],
        ])
    } else {
        None
    }
}

/// The cells of one glyph row, as a picture.
pub open spec fn row_picture(row: u8) -> Seq<char> {
    Seq::new(5, |col: int| if glyph_bit(row, col) { '#' } else { '.' })
}

/// The cells a glyph lights, as a picture.
pub open spec fn glyph_picture(rows: Seq<u8>) -> Seq<Seq<char>> {
    Seq::new(7, |row: int| row_picture(rows[row]))
}

/// The picture of a row, cell by cell.
proof fn lemma_row_picture(b: u8)
    ensures
        row_picture(b) == seq![
            if (b / 16) % 2 == 1 { '#' } else { '.' },
            if (b / 8) % 2 == 1 { '#' } else { '.' },
            if (b / 4) % 2 == 1 { '#' } else { '.' },
            if (b / 2) % 2 == 1 { '#' } else { '.' },
            if b % 2 == 1 { '#' } else { '.' },
        ],
{
    assert(row_picture(b) =~= seq![
        if (b / 16) % 2 == 1 { '#' } else { '.' },
        if (b / 8) % 2 == 1 { '#' } else { '.' },
        if (b / 4) % 2 == 1 { '#' } else { '.' },
        if (b / 2) % 2 == 1 { '#' } else { '.' },
        if b % 2 == 1 { '#' } else { '.' },
    ]);
}

proof fn lemma_picture_0()
    ensures
        glyph_picture(glyph_rows('0').unwrap()) == font_picture('0').unwrap(),
{
    let g = glyph_rows('0').unwrap();
    let pic = font_picture('0').unwrap();
    assert(g[0] == 0x0eu8);
    lemma_row_picture(0x0eu8);
    assert(row_picture(g[0]) =~= pic[0]);
    assert(g[1] == 0x11u8);
    lemma_row_picture(0x11u8);
    assert(row_picture(g[1]) =~= pic[1]);
    assert(g[2] == 0x13u8);
    lemma_row_picture(0x13u8);
    assert(row_picture(g[2]) =~= pic[2]);
    assert(g[3] == 0x15u8);
    lemma_row_picture(0x15u8);
    assert(row_picture(g[3]) =~= pic[3]);
    assert(g[4] == 0x19u8);
    lemma_row_picture(0x19u8);
    assert(row_picture(g[4]) =~= pic[4]);
    assert(g[5] == 0x11u8);
    lemma_row_picture(0x11u8);
    assert(row_picture(g[5]) =~= pic[5]);
    assert(g[6] == 0x0eu8);
    lemma_row_picture(0x0eu8);
    assert(row_picture(g[6]) =~= pic[6]);
    assert(glyph_picture(g) =~= pic);
}

proof fn lemma_picture_1()
    ensures
        glyph_picture(glyph_rows('1').unwrap()) == font_picture('1').unwrap(),
{
    let g = glyph_rows('1').unwrap();
    let pic = font_picture('1').unwrap();
    assert(g[0] == 0x02u8);
    lemma_row_picture(0x02u8);
    assert(row_picture(g[0]) =~= pic[0]);
    assert(g[1] == 0x06u8);
    lemma_row_picture(0x06u8);
    assert(row_picture(g[1]) =~= pic[1]);
    assert(g[2] == 0x02u8);
    lemma_row_picture(0x02u8);
    assert(row_picture(g[2]) =~= pic[2]);
    assert(g[3] == 0x02u8);
    lemma_row_picture(0x02u8);
    assert(row_picture(g[3]) =~= pic[3]);
    assert(g[4] == 0x02u8);
    lemma_row_picture(0x02u8);
    assert(row_picture(g[4]) =~= pic[4]);
    assert(g[5] == 0x02u8);
    lemma_row_picture(0x02u8);
    assert(row_picture(g[5]) =~= pic[5]);
    assert(g[6] == 0x07u8);
    lemma_row_picture(0x07u8);
    assert(row_picture(g[6]) =~= pic[6]);
    assert(glyph_picture(g) =~= pic);
}

proof fn lemma_picture_2()
    ensures
        glyph_picture(glyph_rows('2').unwrap()) == font_picture('2').unwrap(),
{
    let g = glyph_rows('2').unwrap();
    let pic = font_picture('2').unwrap();
    assert(g[0] == 0x0eu8);
    lemma_row_picture(0x0eu8);
    assert(row_picture(g[0]) =~= pic[0]);
    assert(g[1] == 0x11u8);
    lemma_row_picture(0x11u8);
    assert(row_picture(g[1]) =~= pic[1]);
    assert(g[2] == 0x01u8);
    lemma_row_picture(0x01u8);
    assert(row_picture(g[2]) =~= pic[2]);
    assert(g[3] == 0x02u8);
    lemma_row_picture(0x02u8);
    assert(row_picture(g[3]) =~= pic[3]);
    assert(g[4] == 0x04u8);
    lemma_row_picture(0x04u8);
    assert(row_picture(g[4]) =~= pic[4]);
    assert(g[5] == 0x08u8);
    lemma_row_picture(0x08u8);
    assert(row_picture(g[5]) =~= pic[5]);
    assert(g[6] == 0x1fu8);
    lemma_row_picture(0x1fu8);
    assert(row_picture(g[6]) =~= pic[6]);
    assert(glyph_picture(g) =~= pic);
}

proof fn lemma_picture_3()
    ensures
        glyph_picture(glyph_rows('3').unwrap()) == font_picture('3').unwrap(),
{
    let g = glyph_rows('3').unwrap();
    let pic = font_picture('3').unwrap();
    assert(g[0] == 0x1fu8);
    lemma_row_picture(0x1fu8);
    assert(row_picture(g[0]) =~= pic[0]);
    assert(g[1] == 0x02u8);
    lemma_row_picture(0x02u8);
    assert(row_picture(g[1]) =~= pic[1]);
    assert(g[2] == 0x04u8);
    lemma_row_picture(0x04u8);
    assert(row_picture(g[2]) =~= pic[2]);
    assert(g[3] == 0x02u8);
    lemma_row_picture(0x02u8);
    assert(row_picture(g[3]) =~= pic[3]);
    assert(g[4] == 0x01u8);
    lemma_row_picture(0x01u8);
    assert(row_picture(g[4]) =~= pic[4]);
    assert(g[5] == 0x11u8);
    lemma_row_picture(0x11u8);
    assert(row_picture(g[5]) =~= pic[5]);
    assert(g[6] == 0x0eu8);
    lemma_row_picture(0x0eu8);
    assert(row_picture(g[6]) =~= pic[6]);
    assert(glyph_picture(g) =~= pic);
}

proof fn lemma_picture_4()
    ensures
        glyph_picture(glyph_rows('4').unwrap()) == font_picture('4').unwrap(),
{
    let g = glyph_rows('4').unwrap();
    let pic = font_picture('4').unwrap();
    assert(g[0] == 0x02u8);
    lemma_row_picture(0x02u8);
    assert(row_picture(g[0]) =~= pic[0]);
    assert(g[1] == 0x06u8);
    lemma_row_picture(0x06u8);
    assert(row_picture(g[1]) =~= pic[1]);
    assert(g[2] == 0x0au8);
    lemma_row_picture(0x0au8);
    assert(row_picture(g[2]) =~= pic[2]);
    assert(g[3] == 0x12u8);
    lemma_row_picture(0x12u8);
    assert(row_picture(g[3]) =~= pic[3]);
    assert(g[4] == 0x1fu8);
    lemma_row_picture(0x1fu8);
    assert(row_picture(g[4]) =~= pic[4]);
    assert(g[5] == 0x02u8);
    lemma_row_picture(0x02u8);
    assert(row_picture(g[5]) =~= pic[5]);
    assert(g[6] == 0x02u8);
    lemma_row_picture(0x02u8);
    assert(row_picture(g[6]) =~= pic[6]);
    assert(glyph_picture(g) =~= pic);
}

proof fn lemma_picture_5()
    ensures
        glyph_picture(glyph_rows('5').unwrap()) == font_picture('5').unwrap(),
{
    let g = glyph_rows('5').unwrap();
    let pic = font_picture('5').unwrap();
    assert(g[0] == 0x1fu8);
    lemma_row_picture(0x1fu8);
    assert(row_picture(g[0]) =~= pic[0]);
    assert(g[1] == 0x10u8);
    lemma_row_picture(0x10u8);
    assert(row_picture(g[1]) =~= pic[1]);
    assert(g[2] == 0x1eu8);
    lemma_row_picture(0x1eu8);
    assert(row_picture(g[2]) =~= pic[2]);
    assert(g[3] == 0x01u8);
    lemma_row_picture(0x01u8);
    assert(row_picture(g[3]) =~= pic[3]);
    assert(g[4] == 0x01u8);
    lemma_row_picture(0x01u8);
    assert(row_picture(g[4]) =~= pic[4]);
    assert(g[5] == 0x11u8);
    lemma_row_picture(0x11u8);
    assert(row_picture(g[5]) =~= pic[5]);
    assert(g[6] == 0x0eu8);
    lemma_row_picture(0x0eu8);
    assert(row_picture(g[6]) =~= pic[6]);
    assert(glyph_picture(g) =~= pic);
}

proof fn lemma_picture_6()
    ensures
        glyph_picture(glyph_rows('6').unwrap()) == font_picture('6').unwrap(),
{
    let g = glyph_rows('6').unwrap();
    let pic = font_picture('6').unwrap();
    assert(g[0] == 0x06u8);
    lemma_row_picture(0x06u8);
    assert(row_picture(g[0]) =~= pic[0]);
    assert(g[1] == 0x08u8);
    lemma_row_picture(0x08u8);
    assert(row_picture(g[1]) =~= pic[1]);
    assert(g[2] == 0x10u8);
    lemma_row_picture(0x10u8);
    assert(row_picture(g[2]) =~= pic[2]);
    assert(g[3] == 0x1eu8);
    lemma_row_picture(0x1eu8);
    assert(row_picture(g[3]) =~= pic[3]);
    assert(g[4] == 0x11u8);
    lemma_row_picture(0x11u8);
    assert(row_picture(g[4]) =~= pic[4]);
    assert(g[5] == 0x11u8);
    lemma_row_picture(0x11u8);
    assert(row_picture(g[5]) =~= pic[5]);
    assert(g[6] == 0x0eu8);
    lemma_row_picture(0x0eu8);
    assert(row_picture(g[6]) =~= pic[6]);
    assert(glyph_picture(g) =~= pic);
}

proof fn lemma_picture_7()
    ensures
        glyph_picture(glyph_rows('7').unwrap()) == font_picture('7').unwrap(),
{
    let g = glyph_rows('7').unwrap();
    let pic = font_picture('7').unwrap();
    assert(g[0] == 0x1fu8);
    lemma_row_picture(0x1fu8);
    assert(row_picture(g[0]) =~= pic[0]);
    assert(g[1] == 0x01u8);
    lemma_row_picture(0x01u8);
    assert(row_picture(g[1]) =~= pic[1]);
    assert(g[2] == 0x02u8);
    lemma_row_picture(0x02u8);
    assert(row_picture(g[2]) =~= pic[2]);
    assert(g[3] == 0x04u8);
    lemma_row_picture(0x04u8);
    assert(row_picture(g[3]) =~= pic[3]);
    assert(g[4] == 0x08u8);
    lemma_row_picture(0x08u8);
    assert(row_picture(g[4]) =~= pic[4]);
    assert(g[5] == 0x08u8);
    lemma_row_picture(0x08u8);
    assert(row_picture(g[5]) =~= pic[5]);
    assert(g[6] == 0x08u8);
    lemma_row_picture(0x08u8);
    assert(row_picture(g[6]) =~= pic[6]);
    assert(glyph_picture(g) =~= pic);
}

proof fn lemma_picture_8()
    ensures
        glyph_picture(glyph_rows('8').unwrap()) == font_picture('8').unwrap(),
{
    let g = glyph_rows('8').unwrap();
    let pic = font_picture('8').unwrap();
    assert(g[0] == 0x0eu8);
    lemma_row_picture(0x0eu8);
    assert(row_picture(g[0]) =~= pic[0]);
    assert(g[1] == 0x11u8);
    lemma_row_picture(0x11u8);
    assert(row_picture(g[1]) =~= pic[1]);
    assert(g[2] == 0x11u8);
    lemma_row_picture(0x11u8);
    assert(row_picture(g[2]) =~= pic[2]);
    assert(g[3] == 0x0eu8);
    lemma_row_picture(0x0eu8);
    assert(row_picture(g[3]) =~= pic[3]);
    assert(g[4] == 0x11u8);
    lemma_row_picture(0x11u8);
    assert(row_picture(g[4]) =~= pic[4]);
    assert(g[5] == 0x11u8);
    lemma_row_picture(0x11u8);
    assert(row_picture(g[5]) =~= pic[5]);
    assert(g[6] == 0x0eu8);
    lemma_row_picture(0x0eu8);
    assert(row_picture(g[6]) =~= pic[6]);
    assert(glyph_picture(g) =~= pic);
}

proof fn lemma_picture_9()
    ensures
        glyph_picture(glyph_rows('9').unwrap()) == font_picture('9').unwrap(),
{
    let g = glyph_rows('9').unwrap();
    let pic = font_picture('9').unwrap();
    assert(g[0] == 0x0eu8);
    lemma_row_picture(0x0eu8);
    assert(row_picture(g[0]) =~= pic[0]);
    assert(g[1] == 0x11u8);
    lemma_row_picture(0x11u8);
    assert(row_picture(g[1]) =~= pic[1]);
    assert(g[2] == 0x11u8);
    lemma_row_picture(0x11u8);
    assert(row_picture(g[2]) =~= pic[2]);
    assert(g[3] == 0x0fu8);
    lemma_row_picture(0x0fu8);
    assert(row_picture(g[3]) =~= pic[3]);
    assert(g[4] == 0x01u8);
    lemma_row_picture(0x01u8);
    assert(row_picture(g[4]) =~= pic[4]);
    assert(g[5] == 0x02u8);
    lemma_row_picture(0x02u8);
    assert(row_picture(g[5]) =~= pic[5]);
    assert(g[6] == 0x0cu8);
    lemma_row_picture(0x0cu8);
    assert(row_picture(g[6]) =~= pic[6]);
    assert(glyph_picture(g) =~= pic);
}

proof fn lemma_picture_h()
    ensures
        glyph_picture(glyph_rows('H').unwrap()) == font_picture('H').unwrap(),
{
    let g = glyph_rows('H').unwrap();
    let pic = font_picture('H').unwrap();
    assert(g[0] == 0x11u8);
    lemma_row_picture(0x11u8);
    assert(row_picture(g[0]) =~= pic[0]);
    assert(g[1] == 0x11u8);
    lemma_row_picture(0x11u8);
    assert(row_picture(g[1]) =~= pic[1]);
    assert(g[2] == 0x11u8);
    lemma_row_picture(0x11u8);
    assert(row_picture(g[2]) =~= pic[2]);
    assert(g[3] == 0x1fu8);
    lemma_row_picture(0x1fu8);
    assert(row_picture(g[3]) =~= pic[3]);
    assert(g[4] == 0x11u8);
    lemma_row_picture(0x11u8);
    assert(row_picture(g[4]) =~= pic[4]);
    assert(g[5] == 0x11u8);
    lemma_row_picture(0x11u8);
    assert(row_picture(g[5]) =~= pic[5]);
    assert(g[6] == 0x11u8);
    lemma_row_picture(0x11u8);
    assert(row_picture(g[6]) =~= pic[6]);
    assert(glyph_picture(g) =~= pic);
}

proof fn lemma_picture_w()
    ensures
        glyph_picture(glyph_rows('W').unwrap()) == font_picture('W').unwrap(),
{
    let g = glyph_rows('W').unwrap();
    let pic = font_picture('W').unwrap();
    assert(g[0] == 0x11u8);
    lemma_row_picture(0x11u8);
    assert(row_picture(g[0]) =~= pic[0]);
    assert(g[1] == 0x11u8);
    lemma_row_picture(0x11u8);
    assert(row_picture(g[1]) =~= pic[1]);
    assert(g[2] == 0x11u8);
    lemma_row_picture(0x11u8);
    assert(row_picture(g[2]) =~= pic[2]);
    assert(g[3] == 0x15u8);
    lemma_row_picture(0x15u8);
    assert(row_picture(g[3]) =~= pic[3]);
    assert(g[4] == 0x15u8);
    lemma_row_picture(0x15u8);
    assert(row_picture(g[4]) =~= pic[4]);
    assert(g[5] == 0x15u8);
    lemma_row_picture(0x15u8);
    assert(row_picture(g[5]) =~= pic[5]);
    assert(g[6] == 0x0au8);
    lemma_row_picture(0x0au8);
    assert(row_picture(g[6]) =~= pic[6]);
    assert(glyph_picture(g) =~= pic);
}

proof fn lemma_picture_k()
    ensures
        glyph_picture(glyph_rows('K').unwrap()) == font_picture('K').unwrap(),
{
    let g = glyph_rows('K').unwrap();
    let pic = font_picture('K').unwrap();
    assert(g[0] == 0x11u8);
    lemma_row_picture(0x11u8);
    assert(row_picture(g[0]) =~= pic[0]);
    assert(g[1] == 0x12u8);
    lemma_row_picture(0x12u8);
    assert(row_picture(g[1]) =~= pic[1]);
    assert(g[2] == 0x14u8);
    lemma_row_picture(0x14u8);
    assert(row_picture(g[2]) =~= pic[2]);
    assert(g[3] == 0x18u8);
    lemma_row_picture(0x18u8);
    assert(row_picture(g[3]) =~= pic[3]);
    assert(g[4] == 0x14u8);
    lemma_row_picture(0x14u8);
    assert(row_picture(g[4]) =~= pic[4]);
    assert(g[5] == 0x12u8);
    lemma_row_picture(0x12u8);
    assert(row_picture(g[5]) =~= pic[5]);
    assert(g[6] == 0x11u8);
    lemma_row_picture(0x11u8);
    assert(row_picture(g[6]) =~= pic[6]);
    assert(glyph_picture(g) =~= pic);
}

proof fn lemma_picture_m()
    ensures
        glyph_picture(glyph_rows('M').unwrap()) == font_picture('M').unwrap(),
{
    let g = glyph_rows('M').unwrap();
    let pic = font_picture('M').unwrap();
    assert(g[0] == 0x11u8);
    lemma_row_picture(0x11u8);
    assert(row_picture(g[0]) =~= pic[0]);
    assert(g[1] == 0x1bu8);
    lemma_row_picture(0x1bu8);
    assert(row_picture(g[1]) =~= pic[1]);
    assert(g[2] == 0x15u8);
    lemma_row_picture(0x15u8);
    assert(row_picture(g[2]) =~= pic[2]);
    assert(g[3] == 0x15u8);
    lemma_row_picture(0x15u8);
    assert(row_picture(g[3]) =~= pic[3]);
    assert(g[4] == 0x11u8);
    lemma_row_picture(0x11u8);
    assert(row_picture(g[4]) =~= pic[4]);
    assert(g[5] == 0x11u8);
    lemma_row_picture(0x11u8);
    assert(row_picture(g[5]) =~= pic[5]);
    assert(g[6] == 0x11u8);
    lemma_row_picture(0x11u8);
    assert(row_picture(g[6]) =~= pic[6]);
    assert(glyph_picture(g) =~= pic);
}

proof fn lemma_picture_o()
    ensures
        glyph_picture(glyph_rows('O').unwrap()) == font_picture('O').unwrap(),
{
    let g = glyph_rows('O').unwrap();
    let pic = font_picture('O').unwrap();
    assert(g[0] == 0x0eu8);
    lemma_row_picture(0x0eu8);
    assert(row_picture(g[0]) =~= pic[0]);
    assert(g[1] == 0x11u8);
    lemma_row_picture(0x11u8);
    assert(row_picture(g[1]) =~= pic[1]);
    assert(g[2] == 0x11u8);
    lemma_row_picture(0x11u8);
    assert(row_picture(g[2]) =~= pic[2]);
    assert(g[3] == 0x11u8);
    lemma_row_picture(0x11u8);
    assert(row_picture(g[3]) =~= pic[3]);
    assert(g[4] == 0x11u8);
    lemma_row_picture(0x11u8);
    assert(row_picture(g[4]) =~= pic[4]);
    assert(g[5] == 0x11u8);
    lemma_row_picture(0x11u8);
    assert(row_picture(g[5]) =~= pic[5]);
    assert(g[6] == 0x0eu8);
    lemma_row_picture(0x0eu8);
    assert(row_picture(g[6]) =~= pic[6]);
    assert(glyph_picture(g) =~= pic);
}

proof fn lemma_picture_percent()
    ensures
        glyph_picture(glyph_rows('%').unwrap()) == font_picture('%').unwrap(),
{
    let g = glyph_rows('%').unwrap();
    let pic = font_picture('%').unwrap();
    assert(g[0] == 0x10u8);
    lemma_row_picture(0x10u8);
    assert(row_picture(g[0]) =~= pic[0]);
    assert(g[1] == 0x11u8);
    lemma_row_picture(0x11u8);
    assert(row_picture(g[1]) =~= pic[1]);
    assert(g[2] == 0x02u8);
    lemma_row_picture(0x02u8);
    assert(row_picture(g[2]) =~= pic[2]);
    assert(g[3] == 0x04u8);
    lemma_row_picture(0x04u8);
    assert(row_picture(g[3]) =~= pic[3]);
    assert(g[4] == 0x08u8);
    lemma_row_picture(0x08u8);
    assert(row_picture(g[4]) =~= pic[4]);
    assert(g[5] == 0x11u8);
    lemma_row_picture(0x11u8);
    assert(row_picture(g[5]) =~= pic[5]);
    assert(g[6] == 0x01u8);
    lemma_row_picture(0x01u8);
    assert(row_picture(g[6]) =~= pic[6]);
    assert(glyph_picture(g) =~= pic);
}

/// The font draws each character as its picture: digits look like digits,
/// `H`, `W`, `K`, `M`, `O` and `%` like those letters and the percent sign,
/// and every other character has no glyph.
pub proof fn lemma_font_matches_pictures(c: char)
    ensures
        glyph_rows(c) is Some <==> font_picture(c) is Some,
        glyph_rows(c) matches Some(g) ==> glyph_picture(g) == font_picture(c).unwrap(),
{
    if c == '0' {
        lemma_picture_0();
    } else if c == '1' {
        lemma_picture_1();
    } else if c == '2' {
        lemma_picture_2();
    } else if c == '3' {
        lemma_picture_3();
    } else if c == '4' {
        lemma_picture_4();
    } else if c == '5' {
        lemma_picture_5();
    } else if c == '6' {
        lemma_picture_6();
    } else if c == '7' {
        lemma_picture_7();
    } else if c == '8' {
        lemma_picture_8();
    } else if c == '9' {
        lemma_picture_9();
    } else if c == 'H' {
        lemma_picture_h();
    } else if c == 'W' {
        lemma_picture_w();
    } else if c == 'K' {
        lemma_picture_k();
    } else if c == 'M' {
        lemma_picture_m();
    } else if c == 'O' {
        lemma_picture_o();
    } else if c == '%' {
        lemma_picture_percent();
    }
}
} // verus!

//! The mathematical model of a key image: a 72x72 RGBA raster stored row by
//! row, four bytes per pixel, and the operation of painting a region of it.

use vstd::prelude::*;

verus! {

/// Width of a key image in pixels.
pub const WIDTH: usize = 72;

/// Height of a key image in pixels.
pub const HEIGHT: usize = 72;

/// Number of bytes of a key image (four per pixel).
pub const BUF_LEN: usize = 20736;

/// An RGB colour.
pub type Rgb = (u8, u8, u8);

/// Column of the pixel that byte `k` of the raster belongs to.
pub open spec fn pixel_x(k: int) -> int {
    (k / 4) % 72
}

/// Row of the pixel that byte `k` of the raster belongs to.
pub open spec fn pixel_y(k: int) -> int {
    (k / 4) / 72
}

/// Byte offset of the first channel of pixel `(x, y)`.
pub open spec fn pixel_offset(x: int, y: int) -> int {
    (y * 72 + x) * 4
}

/// Channel `i` of an opaque pixel of colour `c` (the fourth channel is alpha).
pub open spec fn channel(c: Rgb, i: int) -> u8 {
    if i == 0 {
        c.0
    } else if i == 1 {
        c.1
    } else if i == 2 {
        c.2
    } else {
        255
    }
}

/// Set every pixel of `s` whose coordinates satisfy `region` to the opaque
/// colour `c`; every other byte keeps its value.
pub open spec fn paint(s: Seq<u8>, region: spec_fn(int, int) -> bool, c: Rgb) -> Seq<u8> {
    Seq::new(
        s.len(),
        |k: int|
            if region(pixel_x(k), pixel_y(k)) {
                channel(c, k % 4)
            } else {
                s[k]
            },
    )
}

/// `(px, py)` lies in the rectangle with corner `(x, y)`, width `w` and height `h`.
pub open spec fn in_rect(px: int, py: int, x: int, y: int, w: int, h: int) -> bool {
    x <= px < x + w && y <= py < y + h
}

/// The rectangle with corner `(x, y)`, width `w` and height `h` (empty when
/// `w <= 0` or `h <= 0`).
pub open spec fn rect(x: int, y: int, w: int, h: int) -> spec_fn(int, int) -> bool {
    |px: int, py: int| in_rect(px, py, x, y, w, h)
}

/// The single pixel `(x, y)`.
pub open spec fn point(x: int, y: int) -> spec_fn(int, int) -> bool {
    |px: int, py: int| px == x && py == y
}

/// The union of two regions.
pub open spec fn union(a: spec_fn(int, int) -> bool, b: spec_fn(int, int) -> bool) -> spec_fn(
    int,
    int,
) -> bool {
    |px: int, py: int| a(px, py) || b(px, py)
}

/// The empty region.
pub open spec fn nowhere() -> spec_fn(int, int) -> bool {
    |px: int, py: int| false
}

/// A raster of the key's size in which every pixel is opaque.
pub open spec fn opaque_raster(s: Seq<u8>) -> bool {
    &&& s.len() == BUF_LEN
    &&& forall|k: int| 0 <= k < s.len() && k % 4 == 3 ==> #[trigger] s[k] == 255
}

/// The background of a fresh key image: every pixel opaque dark grey (25, 25, 25).
pub open spec fn background() -> Seq<u8> {
    Seq::new(BUF_LEN as nat, |k: int| if k % 4 == 3 { 255u8 } else { 25u8 })
}

/// Byte `k` belongs to pixel `(x, y)` exactly when it lies in the four bytes
/// starting at that pixel's offset.
pub proof fn lemma_pixel_of_byte(k: int, x: int, y: int)
    requires
        0 <= k,
        0 <= x < 72,
        0 <= y,
    ensures
        (pixel_offset(x, y) <= k < pixel_offset(x, y) + 4) <==> (pixel_x(k) == x && pixel_y(k)
            == y),
        pixel_offset(x, y) <= k < pixel_offset(x, y) + 4 ==> k % 4 == k - pixel_offset(x, y),
{
    let p = k / 4;
    assert(k == 4 * p + k % 4 && 0 <= k % 4 < 4) by {
        vstd::arithmetic::div_mod::lemma_fundamental_div_mod(k, 4);
    }
    assert(p == 72 * (p / 72) + p % 72 && 0 <= p % 72 < 72) by {
        vstd::arithmetic::div_mod::lemma_fundamental_div_mod(p, 72);
    }
    if pixel_offset(x, y) <= k < pixel_offset(x, y) + 4 {
        assert(p == y * 72 + x);
        vstd::arithmetic::div_mod::lemma_fundamental_div_mod_converse(p, 72, y, x);
    }
}

/// Painting a region and then another region with the same colour paints
/// their union.
pub proof fn lemma_paint_union(
    s: Seq<u8>,
    a: spec_fn(int, int) -> bool,
    b: spec_fn(int, int) -> bool,
    c: Rgb,
)
    ensures
        paint(paint(s, a, c), b, c) == paint(s, union(a, b), c),
{
    assert(paint(paint(s, a, c), b, c) =~= paint(s, union(a, b), c));
}

/// Painting with regions that hold of the same pixels gives the same raster.
pub proof fn lemma_paint_same_region(
    s: Seq<u8>,
    a: spec_fn(int, int) -> bool,
    b: spec_fn(int, int) -> bool,
    c: Rgb,
)
    requires
        forall|px: int, py: int| #[trigger] a(px, py) == b(px, py),
    ensures
        paint(s, a, c) == paint(s, b, c),
{
    assert(paint(s, a, c) =~= paint(s, b, c));
}

/// Painting nothing leaves the raster unchanged.
pub proof fn lemma_paint_nowhere(s: Seq<u8>, c: Rgb)
    ensures
        paint(s, nowhere(), c) == s,
{
    assert(paint(s, nowhere(), c) =~= s);
}

/// Painting keeps every pixel of a raster opaque.
pub proof fn lemma_paint_opaque(s: Seq<u8>, region: spec_fn(int, int) -> bool, c: Rgb)
    requires
        opaque_raster(s),
    ensures
        opaque_raster(paint(s, region, c)),
{
}

} // verus!

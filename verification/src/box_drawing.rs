//! Pixel-perfect bitmaps for box drawing, block, braille and Powerline
//! characters.
//!
//! A bitmap is a row-major RGBA byte vector of `w * h * 4` bytes. A pixel is
//! either untouched (all four bytes zero) or white with a non-zero alpha, so
//! a bitmap is fully described by the alpha of each pixel.

use vstd::prelude::*;

verus! {

/// Largest cell edge, in pixels, for which glyphs are rasterised: the edge of
/// the glyph atlas.
pub const MAX_CELL: u32 = 2048;

pub open spec fn in_canvas(w: int, h: int, x: int, y: int) -> bool {
    0 <= x < w && 0 <= y < h
}

/// Byte offset of pixel `(x, y)` in a bitmap of width `w`.
pub open spec fn px_index(w: int, x: int, y: int) -> int {
    (y * w + x) * 4
}

/// Alpha of pixel `(x, y)`.
pub open spec fn alpha_at(p: Seq<u8>, w: int, x: int, y: int) -> u8 {
    p[px_index(w, x, y) + 3]
}

/// A pixel is transparent black or white with some coverage.
pub open spec fn pixel_ok(p: Seq<u8>, w: int, x: int, y: int) -> bool {
    let i = px_index(w, x, y);
    if p[i + 3] == 0 {
        p[i] == 0 && p[i + 1] == 0 && p[i + 2] == 0
    } else {
        p[i] == 0xFF && p[i + 1] == 0xFF && p[i + 2] == 0xFF
    }
}

/// `p` is a well-formed `w` by `h` bitmap.
pub open spec fn is_canvas(p: Seq<u8>, w: int, h: int) -> bool {
    &&& 0 <= w
    &&& 0 <= h
    &&& p.len() == w * h * 4
    &&& forall|x: int, y: int| in_canvas(w, h, x, y) ==> #[trigger] pixel_ok(p, w, x, y)
}

proof fn lemma_px_bounds(w: int, h: int, x: int, y: int)
    requires
        in_canvas(w, h, x, y),
    ensures
        0 <= px_index(w, x, y),
        px_index(w, x, y) + 4 <= w * h * 4,
        0 <= y * w + x < w * h,
{
    assert(y * w >= 0) by (nonlinear_arith)
        requires
            y >= 0,
            w >= 0,
    ;
    assert((y + 1) * w <= h * w) by (nonlinear_arith)
        requires
            y + 1 <= h,
            w >= 0,
    ;
    assert((y + 1) * w == y * w + w) by (nonlinear_arith);
    assert(h * w == w * h) by (nonlinear_arith);
}

proof fn lemma_px_distinct(w: int, x1: int, y1: int, x2: int, y2: int)
    requires
        0 <= x1 < w,
        0 <= x2 < w,
        x1 != x2 || y1 != y2,
    ensures
        px_index(w, x1, y1) != px_index(w, x2, y2),
        px_index(w, x1, y1) + 4 <= px_index(w, x2, y2) || px_index(w, x2, y2) + 4 <= px_index(
            w,
            x1,
            y1,
        ),
{
    if y1 < y2 {
        assert((y1 + 1) * w <= y2 * w) by (nonlinear_arith)
            requires
                y1 + 1 <= y2,
                w >= 0,
        ;
        assert((y1 + 1) * w == y1 * w + w) by (nonlinear_arith);
    } else if y2 < y1 {
        assert((y2 + 1) * w <= y1 * w) by (nonlinear_arith)
            requires
                y2 + 1 <= y1,
                w >= 0,
        ;
        assert((y2 + 1) * w == y2 * w + w) by (nonlinear_arith);
    }
}

/// A transparent bitmap of `w` by `h` pixels.
fn buf(w: u32, h: u32) -> (p: Vec<u8>)
    requires
        w <= MAX_CELL,
        h <= MAX_CELL,
    ensures
        is_canvas(p@, w as int, h as int),
        forall|x: int, y: int| in_canvas(w as int, h as int, x, y) ==> alpha_at(p@, w as int, x, y) == 0,
{
    assert(w * h * 4 <= 2048 * 2048 * 4) by (nonlinear_arith)
        requires
            w <= 2048,
            h <= 2048,
    ;
    let n: usize = (w * h * 4) as usize;
    let p = vec![0u8; n];
    assert forall|x: int, y: int| in_canvas(w as int, h as int, x, y) implies pixel_ok(
        p@,
        w as int,
        x,
        y,
    ) && alpha_at(p@, w as int, x, y) == 0 by {
        lemma_px_bounds(w as int, h as int, x, y);
    }
    p
}

/// Raise the alpha of one pixel to at least `a`; pixels outside the bitmap
/// are ignored.
fn set(p: &mut Vec<u8>, w: u32, h: u32, x: i32, y: i32, a: u8)
    requires
        w <= MAX_CELL,
        h <= MAX_CELL,
        is_canvas(old(p)@, w as int, h as int),
    ensures
        is_canvas(final(p)@, w as int, h as int),
        forall|px: int, py: int|
            in_canvas(w as int, h as int, px, py) ==> #[trigger] alpha_at(final(p)@, w as int, px, py)
                == (if px == x && py == y && a > alpha_at(old(p)@, w as int, px, py) {
                a
            } else {
                alpha_at(old(p)@, w as int, px, py)
            }),
{
    if x < 0 || y < 0 || x >= w as i32 || y >= h as i32 {
        return ;
    }
    proof {
        lemma_px_bounds(w as int, h as int, x as int, y as int);
        assert(w * h <= 2048 * 2048) by (nonlinear_arith)
            requires
                w <= 2048,
                h <= 2048,
        ;
        assert(0 <= y * w <= w * h) by (nonlinear_arith)
            requires
                0 <= y < h,
                0 <= w,
        ;
    }
    let i: usize = (y as u32 * w + x as u32) as usize * 4;
    let ghost before = p@;
    if a > p[i + 3] {
        p.set(i, 0xFF);
        p.set(i + 1, 0xFF);
        p.set(i + 2, 0xFF);
        p.set(i + 3, a);
    }
    proof {
        assert forall|px: int, py: int| in_canvas(w as int, h as int, px, py) implies #[trigger] pixel_ok(
            p@,
            w as int,
            px,
            py,
        ) by {
            lemma_px_bounds(w as int, h as int, px, py);
            assert(pixel_ok(before, w as int, px, py));
            if px != x || py != y {
                lemma_px_distinct(w as int, px, py, x as int, y as int);
            }
        }
        assert forall|px: int, py: int| in_canvas(w as int, h as int, px, py) implies #[trigger] alpha_at(
            p@,
            w as int,
            px,
            py,
        ) == (if px == x && py == y && a > alpha_at(before, w as int, px, py) {
            a
        } else {
            alpha_at(before, w as int, px, py)
        }) by {
            lemma_px_bounds(w as int, h as int, px, py);
            if px != x || py != y {
                lemma_px_distinct(w as int, px, py, x as int, y as int);
            }
        }
    }
}

/// Alpha of a pixel after an opaque stroke: full where the stroke hits.
pub open spec fn paint(hit: bool, before: u8) -> u8 {
    if hit {
        255
    } else {
        before
    }
}

pub open spec fn in_rect(x0: int, y0: int, x1: int, y1: int, x: int, y: int) -> bool {
    x0 <= x < x1 && y0 <= y < y1
}

/// Fill the half-open rectangle `[x0, x1) x [y0, y1)`, clipped to the bitmap.
fn rect(p: &mut Vec<u8>, w: u32, h: u32, x0: i32, y0: i32, x1: i32, y1: i32)
    requires
        w <= MAX_CELL,
        h <= MAX_CELL,
        is_canvas(old(p)@, w as int, h as int),
    ensures
        is_canvas(final(p)@, w as int, h as int),
        forall|x: int, y: int|
            in_canvas(w as int, h as int, x, y) ==> #[trigger] alpha_at(final(p)@, w as int, x, y)
                == paint(
                in_rect(x0 as int, y0 as int, x1 as int, y1 as int, x, y),
                alpha_at(old(p)@, w as int, x, y),
            ),
{
    let ghost start = p@;
    let xs: i32 = if x0 > 0 { x0 } else { 0 };
    let ys: i32 = if y0 > 0 { y0 } else { 0 };
    let xe: i32 = if x1 < w as i32 { x1 } else { w as i32 };
    let ye: i32 = if y1 < h as i32 { y1 } else { h as i32 };
    let mut y: i32 = ys;
    while y < ye
        invariant
            w <= MAX_CELL,
            h <= MAX_CELL,
            0 <= ys <= y,
            y <= ye || y == ys,
            0 <= xs,
            xs == (if x0 > 0 { x0 } else { 0i32 }),
            ys == (if y0 > 0 { y0 } else { 0i32 }),
            xe == (if x1 < w as i32 { x1 } else { w as i32 }),
            ye == (if y1 < h as i32 { y1 } else { h as i32 }),
            is_canvas(p@, w as int, h as int),
            forall|px: int, py: int|
                in_canvas(w as int, h as int, px, py) ==> #[trigger] alpha_at(p@, w as int, px, py)
                    == paint(xs <= px < xe && ys <= py < y, alpha_at(start, w as int, px, py)),
        decreases ye - y,
    {
        let mut x: i32 = xs;
        while x < xe
            invariant
                w <= MAX_CELL,
                h <= MAX_CELL,
                0 <= ys <= y < ye,
                0 <= xs <= x,
                x <= xe || x == xs,
                ye <= h,
                xe <= w,
                is_canvas(p@, w as int, h as int),
                forall|px: int, py: int|
                    in_canvas(w as int, h as int, px, py) ==> #[trigger] alpha_at(
                        p@,
                        w as int,
                        px,
                        py,
                    ) == paint(
                        (xs <= px < xe && ys <= py < y) || (py == y && xs <= px < x),
                        alpha_at(start, w as int, px, py),
                    ),
            decreases xe - x,
        {
            set(p, w, h, x, y, 0xFF);
            x = x + 1;
        }
        y = y + 1;
    }
}

// ── thickness ────────────────────────────────────────────────────────────────

/// Width of a light stroke: 8% of the cell height, rounded, at least 1.
pub open spec fn norm_of(cell_h: int) -> int {
    let t = (cell_h * 8 + 50) / 100;
    if t < 1 {
        1
    } else {
        t
    }
}

/// Width of a heavy stroke: 18% of the cell height, rounded, at least 2.
pub open spec fn thk_of(cell_h: int) -> int {
    let t = (cell_h * 18 + 50) / 100;
    if t < 2 {
        2
    } else {
        t
    }
}

/// Distance of each line of a double stroke from the centre line.
pub open spec fn gap_of(t: int) -> int {
    if t * 2 < 3 {
        3
    } else {
        t * 2
    }
}

fn norm(cell_h: u32) -> (t: u32)
    requires
        cell_h <= MAX_CELL,
    ensures
        t == norm_of(cell_h as int),
        1 <= t <= 164,
{
    let t: u32 = (cell_h * 8 + 50) / 100;
    if t < 1 {
        1
    } else {
        t
    }
}

fn thk(cell_h: u32) -> (t: u32)
    requires
        cell_h <= MAX_CELL,
    ensures
        t == thk_of(cell_h as int),
        2 <= t <= 369,
{
    let t: u32 = (cell_h * 18 + 50) / 100;
    if t < 2 {
        2
    } else {
        t
    }
}

fn dbl_gap(t: u32) -> (g: i32)
    requires
        t <= 1000,
    ensures
        g == gap_of(t as int),
{
    let g: i32 = t as i32 * 2;
    if g < 3 {
        3
    } else {
        g
    }
}

// ── strokes ──────────────────────────────────────────────────────────────────

/// `v` lies in the band of width `t` centred on `c`.
pub open spec fn span(c: int, t: int, v: int) -> bool {
    c - t / 2 <= v < c - t / 2 + t
}

/// Horizontal stroke from the left edge to just past the centre.
pub open spec fn left_arm(w: int, cy: int, t: int, x: int, y: int) -> bool {
    x < w / 2 + t / 2 && span(cy, t, y)
}

/// Horizontal stroke from just before the centre to the right edge.
pub open spec fn right_arm(w: int, cy: int, t: int, x: int, y: int) -> bool {
    x >= w / 2 - t / 2 && span(cy, t, y)
}

/// Vertical stroke from the top edge to just past the centre.
pub open spec fn up_arm(h: int, cx: int, t: int, x: int, y: int) -> bool {
    y < h / 2 + t / 2 && span(cx, t, x)
}

/// Vertical stroke from just before the centre to the bottom edge.
pub open spec fn down_arm(h: int, cx: int, t: int, x: int, y: int) -> bool {
    y >= h / 2 - t / 2 && span(cx, t, x)
}

pub open spec fn stroke_args_ok(w: u32, h: u32, c: i32, t: u32) -> bool {
    w <= MAX_CELL && h <= MAX_CELL && -16384 <= c <= 16384 && t <= 1000
}

fn hl(p: &mut Vec<u8>, w: u32, h: u32, cy: i32, t: u32)
    requires
        stroke_args_ok(w, h, cy, t),
        is_canvas(old(p)@, w as int, h as int),
    ensures
        is_canvas(final(p)@, w as int, h as int),
        forall|x: int, y: int|
            in_canvas(w as int, h as int, x, y) ==> #[trigger] alpha_at(final(p)@, w as int, x, y)
                == paint(span(cy as int, t as int, y), alpha_at(old(p)@, w as int, x, y)),
{
    let d: i32 = t as i32 / 2;
    rect(p, w, h, 0, cy - d, w as i32, cy - d + t as i32);
}

fn vl(p: &mut Vec<u8>, w: u32, h: u32, cx: i32, t: u32)
    requires
        stroke_args_ok(w, h, cx, t),
        is_canvas(old(p)@, w as int, h as int),
    ensures
        is_canvas(final(p)@, w as int, h as int),
        forall|x: int, y: int|
            in_canvas(w as int, h as int, x, y) ==> #[trigger] alpha_at(final(p)@, w as int, x, y)
                == paint(span(cx as int, t as int, x), alpha_at(old(p)@, w as int, x, y)),
{
    let d: i32 = t as i32 / 2;
    rect(p, w, h, cx - d, 0, cx - d + t as i32, h as i32);
}

fn hl_l(p: &mut Vec<u8>, w: u32, h: u32, cy: i32, t: u32)
    requires
        stroke_args_ok(w, h, cy, t),
        is_canvas(old(p)@, w as int, h as int),
    ensures
        is_canvas(final(p)@, w as int, h as int),
        forall|x: int, y: int|
            in_canvas(w as int, h as int, x, y) ==> #[trigger] alpha_at(final(p)@, w as int, x, y)
                == paint(
                left_arm(w as int, cy as int, t as int, x, y),
                alpha_at(old(p)@, w as int, x, y),
            ),
{
    let d: i32 = t as i32 / 2;
    rect(p, w, h, 0, cy - d, w as i32 / 2 + d, cy - d + t as i32);
}

fn hl_r(p: &mut Vec<u8>, w: u32, h: u32, cy: i32, t: u32)
    requires
        stroke_args_ok(w, h, cy, t),
        is_canvas(old(p)@, w as int, h as int),
    ensures
        is_canvas(final(p)@, w as int, h as int),
        forall|x: int, y: int|
            in_canvas(w as int, h as int, x, y) ==> #[trigger] alpha_at(final(p)@, w as int, x, y)
                == paint(
                right_arm(w as int, cy as int, t as int, x, y),
                alpha_at(old(p)@, w as int, x, y),
            ),
{
    let d: i32 = t as i32 / 2;
    rect(p, w, h, w as i32 / 2 - d, cy - d, w as i32, cy - d + t as i32);
}

fn vl_t(p: &mut Vec<u8>, w: u32, h: u32, cx: i32, t: u32)
    requires
        stroke_args_ok(w, h, cx, t),
        is_canvas(old(p)@, w as int, h as int),
    ensures
        is_canvas(final(p)@, w as int, h as int),
        forall|x: int, y: int|
            in_canvas(w as int, h as int, x, y) ==> #[trigger] alpha_at(final(p)@, w as int, x, y)
                == paint(
                up_arm(h as int, cx as int, t as int, x, y),
                alpha_at(old(p)@, w as int, x, y),
            ),
{
    let d: i32 = t as i32 / 2;
    rect(p, w, h, cx - d, 0, cx - d + t as i32, h as i32 / 2 + d);
}

fn vl_b(p: &mut Vec<u8>, w: u32, h: u32, cx: i32, t: u32)
    requires
        stroke_args_ok(w, h, cx, t),
        is_canvas(old(p)@, w as int, h as int),
    ensures
        is_canvas(final(p)@, w as int, h as int),
        forall|x: int, y: int|
            in_canvas(w as int, h as int, x, y) ==> #[trigger] alpha_at(final(p)@, w as int, x, y)
                == paint(
                down_arm(h as int, cx as int, t as int, x, y),
                alpha_at(old(p)@, w as int, x, y),
            ),
{
    let d: i32 = t as i32 / 2;
    rect(p, w, h, cx - d, h as i32 / 2 - d, cx - d + t as i32, h as i32);
}

// ── double lines ─────────────────────────────────────────────────────────────

fn dbl_hl(p: &mut Vec<u8>, w: u32, h: u32, cy: i32, t: u32)
    requires
        stroke_args_ok(w, h, cy, t),
        -8192 <= cy <= 8192,
        is_canvas(old(p)@, w as int, h as int),
    ensures
        is_canvas(final(p)@, w as int, h as int),
        forall|x: int, y: int|
            in_canvas(w as int, h as int, x, y) ==> #[trigger] alpha_at(final(p)@, w as int, x, y)
                == paint(
                span(cy - gap_of(t as int), t as int, y) || span(cy + gap_of(t as int), t as int, y),
                alpha_at(old(p)@, w as int, x, y),
            ),
{
    let d: i32 = dbl_gap(t);
    hl(p, w, h, cy - d, t);
    hl(p, w, h, cy + d, t);
}

fn dbl_vl(p: &mut Vec<u8>, w: u32, h: u32, cx: i32, t: u32)
    requires
        stroke_args_ok(w, h, cx, t),
        -8192 <= cx <= 8192,
        is_canvas(old(p)@, w as int, h as int),
    ensures
        is_canvas(final(p)@, w as int, h as int),
        forall|x: int, y: int|
            in_canvas(w as int, h as int, x, y) ==> #[trigger] alpha_at(final(p)@, w as int, x, y)
                == paint(
                span(cx - gap_of(t as int), t as int, x) || span(cx + gap_of(t as int), t as int, x),
                alpha_at(old(p)@, w as int, x, y),
            ),
{
    let d: i32 = dbl_gap(t);
    vl(p, w, h, cx - d, t);
    vl(p, w, h, cx + d, t);
}

fn dbl_hl_l(p: &mut Vec<u8>, w: u32, h: u32, cy: i32, t: u32)
    requires
        stroke_args_ok(w, h, cy, t),
        -8192 <= cy <= 8192,
        is_canvas(old(p)@, w as int, h as int),
    ensures
        is_canvas(final(p)@, w as int, h as int),
        forall|x: int, y: int|
            in_canvas(w as int, h as int, x, y) ==> #[trigger] alpha_at(final(p)@, w as int, x, y)
                == paint(
                left_arm(w as int, cy - gap_of(t as int), t as int, x, y) || left_arm(w as int, cy + gap_of(t as int), t as int, x, y),
                alpha_at(old(p)@, w as int, x, y),
            ),
{
    let d: i32 = dbl_gap(t);
    hl_l(p, w, h, cy - d, t);
    hl_l(p, w, h, cy + d, t);
}

fn dbl_hl_r(p: &mut Vec<u8>, w: u32, h: u32, cy: i32, t: u32)
    requires
        stroke_args_ok(w, h, cy, t),
        -8192 <= cy <= 8192,
        is_canvas(old(p)@, w as int, h as int),
    ensures
        is_canvas(final(p)@, w as int, h as int),
        forall|x: int, y: int|
            in_canvas(w as int, h as int, x, y) ==> #[trigger] alpha_at(final(p)@, w as int, x, y)
                == paint(
                right_arm(w as int, cy - gap_of(t as int), t as int, x, y) || right_arm(w as int, cy + gap_of(t as int), t as int, x, y),
                alpha_at(old(p)@, w as int, x, y),
            ),
{
    let d: i32 = dbl_gap(t);
    hl_r(p, w, h, cy - d, t);
    hl_r(p, w, h, cy + d, t);
}

fn dbl_vl_t(p: &mut Vec<u8>, w: u32, h: u32, cx: i32, t: u32)
    requires
        stroke_args_ok(w, h, cx, t),
        -8192 <= cx <= 8192,
        is_canvas(old(p)@, w as int, h as int),
    ensures
        is_canvas(final(p)@, w as int, h as int),
        forall|x: int, y: int|
            in_canvas(w as int, h as int, x, y) ==> #[trigger] alpha_at(final(p)@, w as int, x, y)
                == paint(
                up_arm(h as int, cx - gap_of(t as int), t as int, x, y) || up_arm(h as int, cx + gap_of(t as int), t as int, x, y),
                alpha_at(old(p)@, w as int, x, y),
            ),
{
    let d: i32 = dbl_gap(t);
    vl_t(p, w, h, cx - d, t);
    vl_t(p, w, h, cx + d, t);
}

fn dbl_vl_b(p: &mut Vec<u8>, w: u32, h: u32, cx: i32, t: u32)
    requires
        stroke_args_ok(w, h, cx, t),
        -8192 <= cx <= 8192,
        is_canvas(old(p)@, w as int, h as int),
    ensures
        is_canvas(final(p)@, w as int, h as int),
        forall|x: int, y: int|
            in_canvas(w as int, h as int, x, y) ==> #[trigger] alpha_at(final(p)@, w as int, x, y)
                == paint(
                down_arm(h as int, cx - gap_of(t as int), t as int, x, y) || down_arm(h as int, cx + gap_of(t as int), t as int, x, y),
                alpha_at(old(p)@, w as int, x, y),
            ),
{
    let d: i32 = dbl_gap(t);
    vl_b(p, w, h, cx - d, t);
    vl_b(p, w, h, cx + d, t);
}

// ── dashed / diagonal ────────────────────────────────────────────────────────

/// `v` falls on one of the first `n` dashes of length `seg`, which start at
/// every other multiple of `seg`.
pub open spec fn dash_hit(seg: int, n: nat, v: int) -> bool
    decreases n,
{
    n > 0 && ((n - 1) * 2 * seg <= v < (n - 1) * 2 * seg + seg || dash_hit(seg, (n - 1) as nat, v))
}

proof fn lemma_dash_extent(len: int, n: int, i: int)
    requires
        0 <= len,
        0 < n,
        0 <= i < n,
    ensures
        0 <= len / (n * 2),
        0 <= i * 2 * (len / (n * 2)),
        i * 2 * (len / (n * 2)) + len / (n * 2) <= len,
{
    let seg = len / (n * 2);
    vstd::arithmetic::div_mod::lemma_fundamental_div_mod(len, n * 2);
    vstd::arithmetic::div_mod::lemma_div_pos_is_pos(len, n * 2);
    assert(0 <= len % (n * 2)) by {
        vstd::arithmetic::div_mod::lemma_mod_pos_bound(len, n * 2);
    }
    assert(i * 2 * seg + seg <= (n * 2) * seg) by (nonlinear_arith)
        requires
            0 <= i < n,
            0 <= seg,
    ;
    assert(0 <= i * 2 * seg) by (nonlinear_arith)
        requires
            0 <= i,
            0 <= seg,
    ;
}

fn dashed_h(p: &mut Vec<u8>, w: u32, h: u32, cy: i32, t: u32, n: u32)
    requires
        stroke_args_ok(w, h, cy, t),
        0 < n <= MAX_CELL,
        is_canvas(old(p)@, w as int, h as int),
    ensures
        is_canvas(final(p)@, w as int, h as int),
        forall|x: int, y: int|
            in_canvas(w as int, h as int, x, y) ==> #[trigger] alpha_at(final(p)@, w as int, x, y)
                == paint(
                dash_hit(w as int / (n as int * 2), n as nat, x) && span(cy as int, t as int, y),
                alpha_at(old(p)@, w as int, x, y),
            ),
{
    let ghost start = p@;
    let seg: u32 = w / (n * 2);
    let d: i32 = t as i32 / 2;
    let mut i: u32 = 0;
    while i < n
        invariant
            stroke_args_ok(w, h, cy, t),
            0 < n <= MAX_CELL,
            i <= n,
            seg == w as int / (n as int * 2),
            d == t as i32 / 2,
            is_canvas(p@, w as int, h as int),
            forall|x: int, y: int|
                in_canvas(w as int, h as int, x, y) ==> #[trigger] alpha_at(p@, w as int, x, y)
                    == paint(
                    dash_hit(seg as int, i as nat, x) && span(cy as int, t as int, y),
                    alpha_at(start, w as int, x, y),
                ),
        decreases n - i,
    {
        proof {
            lemma_dash_extent(w as int, n as int, i as int);
        }
        let x0: i32 = (i * 2 * seg) as i32;
        rect(p, w, h, x0, cy - d, x0 + seg as i32, cy - d + t as i32);
        i = i + 1;
    }
}

fn dashed_v(p: &mut Vec<u8>, w: u32, h: u32, cx: i32, t: u32, n: u32)
    requires
        stroke_args_ok(w, h, cx, t),
        0 < n <= MAX_CELL,
        is_canvas(old(p)@, w as int, h as int),
    ensures
        is_canvas(final(p)@, w as int, h as int),
        forall|x: int, y: int|
            in_canvas(w as int, h as int, x, y) ==> #[trigger] alpha_at(final(p)@, w as int, x, y)
                == paint(
                dash_hit(h as int / (n as int * 2), n as nat, y) && span(cx as int, t as int, x),
                alpha_at(old(p)@, w as int, x, y),
            ),
{
    let ghost start = p@;
    let seg: u32 = h / (n * 2);
    let d: i32 = t as i32 / 2;
    let mut i: u32 = 0;
    while i < n
        invariant
            stroke_args_ok(w, h, cx, t),
            0 < n <= MAX_CELL,
            i <= n,
            seg == h as int / (n as int * 2),
            d == t as i32 / 2,
            is_canvas(p@, w as int, h as int),
            forall|x: int, y: int|
                in_canvas(w as int, h as int, x, y) ==> #[trigger] alpha_at(p@, w as int, x, y)
                    == paint(
                    dash_hit(seg as int, i as nat, y) && span(cx as int, t as int, x),
                    alpha_at(start, w as int, x, y),
                ),
        decreases n - i,
    {
        proof {
            lemma_dash_extent(h as int, n as int, i as int);
        }
        let y0: i32 = (i * 2 * seg) as i32;
        rect(p, w, h, cx - d, y0, cx - d + t as i32, y0 + seg as i32);
        i = i + 1;
    }
}

/// Half-width of a diagonal stroke of thickness `t`.
pub open spec fn half_of(t: int) -> int {
    if t >= 1 {
        (t - 1) / 2
    } else {
        0
    }
}

/// Row crossed by the cell diagonal in column `x`.
pub open spec fn diag_row(w: int, h: int, down_right: bool, x: int) -> int {
    if down_right {
        x * h / w
    } else {
        h - 1 - x * h / w
    }
}

/// Pixels of a corner-to-corner diagonal of thickness `t`.
pub open spec fn diag_hit(w: int, h: int, down_right: bool, t: int, x: int, y: int) -> bool {
    diag_row(w, h, down_right, x) - half_of(t) <= y <= diag_row(w, h, down_right, x) + half_of(t)
}

fn diag(p: &mut Vec<u8>, w: u32, h: u32, down_right: bool, t: u32)
    requires
        w <= MAX_CELL,
        h <= MAX_CELL,
        t <= 1000,
        is_canvas(old(p)@, w as int, h as int),
    ensures
        is_canvas(final(p)@, w as int, h as int),
        forall|x: int, y: int|
            in_canvas(w as int, h as int, x, y) ==> #[trigger] alpha_at(final(p)@, w as int, x, y)
                == paint(
                diag_hit(w as int, h as int, down_right, t as int, x, y),
                alpha_at(old(p)@, w as int, x, y),
            ),
{
    let ghost start = p@;
    let half: i32 = if t >= 1 { (t as i32 - 1) / 2 } else { 0 };
    let mut x: i32 = 0;
    while x < w as i32
        invariant
            w <= MAX_CELL,
            h <= MAX_CELL,
            t <= 1000,
            0 <= x <= w,
            half == half_of(t as int),
            is_canvas(p@, w as int, h as int),
            forall|px: int, py: int|
                in_canvas(w as int, h as int, px, py) ==> #[trigger] alpha_at(p@, w as int, px, py)
                    == paint(
                    px < x && diag_hit(w as int, h as int, down_right, t as int, px, py),
                    alpha_at(start, w as int, px, py),
                ),
        decreases w - x,
    {
        assert(0 <= x * h <= 2048 * 2048) by (nonlinear_arith)
            requires
                0 <= x < 2048,
                0 <= h <= 2048,
        ;
        assert(0 <= (x * h) / (w as int) <= x * h) by {
            vstd::arithmetic::div_mod::lemma_div_pos_is_pos(x * h, w as int);
            vstd::arithmetic::div_mod::lemma_div_is_ordered_by_denominator(x * h, 1, w as int);
        }
        let y: i32 = if down_right {
            x * h as i32 / w as i32
        } else {
            h as i32 - 1 - x * h as i32 / w as i32
        };
        let mut d: i32 = -half;
        while d <= half
            invariant
                w <= MAX_CELL,
                h <= MAX_CELL,
                0 <= x < w,
                0 <= half <= 500,
                -half <= d <= half + 1,
                -5000000 <= y <= 5000000,
                y == diag_row(w as int, h as int, down_right, x as int),
                half == half_of(t as int),
                is_canvas(p@, w as int, h as int),
                forall|px: int, py: int|
                    in_canvas(w as int, h as int, px, py) ==> #[trigger] alpha_at(
                        p@,
                        w as int,
                        px,
                        py,
                    ) == paint(
                        (px < x && diag_hit(w as int, h as int, down_right, t as int, px, py)) || (px
                            == x && y - half <= py < y + d),
                        alpha_at(start, w as int, px, py),
                    ),
            decreases half + 1 - d,
        {
            set(p, w, h, x, y + d, 0xFF);
            d = d + 1;
        }
        x = x + 1;
    }
}

/// Division that rounds toward zero.
pub open spec fn trunc_div(a: int, b: int) -> int {
    if a >= 0 {
        a / b
    } else {
        -((-a) / b)
    }
}

fn tdiv(a: i64, b: i64) -> (q: i64)
    requires
        b > 0,
        a > i64::MIN,
    ensures
        q == trunc_div(a as int, b as int),
        a >= 0 ==> 0 <= q <= a,
        a < 0 ==> a <= q <= 0,
{
    if a >= 0 {
        proof {
            vstd::arithmetic::div_mod::lemma_div_pos_is_pos(a as int, b as int);
            vstd::arithmetic::div_mod::lemma_div_is_ordered_by_denominator(a as int, 1, b as int);
        }
        a / b
    } else {
        proof {
            vstd::arithmetic::div_mod::lemma_div_pos_is_pos(-a as int, b as int);
            vstd::arithmetic::div_mod::lemma_div_is_ordered_by_denominator(-a as int, 1, b as int);
        }
        -((-a) / b)
    }
}

pub open spec fn abs_of(v: int) -> int {
    if v < 0 {
        -v
    } else {
        v
    }
}

/// Number of steps walked along a segment: its longer extent, at least 1.
pub open spec fn seg_steps(x0: int, y0: int, x1: int, y1: int) -> int {
    let dx = abs_of(x1 - x0);
    let dy = abs_of(y1 - y0);
    if dx >= dy && dx >= 1 {
        dx
    } else if dy >= 1 {
        dy
    } else {
        1
    }
}

/// Coordinate reached after `i` of `steps` steps from `a0` towards `a1`.
pub open spec fn seg_coord(a0: int, a1: int, i: int, steps: int) -> int {
    a0 + trunc_div((a1 - a0) * i, steps)
}

/// Pixels stamped at step `i` of a segment: a bar of the stroke's thickness
/// across the segment's main direction.
pub open spec fn seg_stamp(
    x0: int,
    y0: int,
    x1: int,
    y1: int,
    t: int,
    i: int,
    x: int,
    y: int,
) -> bool {
    let steps = seg_steps(x0, y0, x1, y1);
    let sx = seg_coord(x0, x1, i, steps);
    let sy = seg_coord(y0, y1, i, steps);
    if abs_of(x1 - x0) >= abs_of(y1 - y0) {
        x == sx && sy - half_of(t) <= y <= sy + half_of(t)
    } else {
        y == sy && sx - half_of(t) <= x <= sx + half_of(t)
    }
}

/// Pixels stamped by the first `n` steps of a segment.
pub open spec fn seg_hit(
    x0: int,
    y0: int,
    x1: int,
    y1: int,
    t: int,
    n: nat,
    x: int,
    y: int,
) -> bool
    decreases n,
{
    n > 0 && (seg_stamp(x0, y0, x1, y1, t, n - 1, x, y) || seg_hit(
        x0,
        y0,
        x1,
        y1,
        t,
        (n - 1) as nat,
        x,
        y,
    ))
}

fn diag_seg(p: &mut Vec<u8>, w: u32, h: u32, x0: i32, y0: i32, x1: i32, y1: i32, t: u32)
    requires
        w <= MAX_CELL,
        h <= MAX_CELL,
        t <= 1000,
        -4096 <= x0 <= 4096,
        -4096 <= y0 <= 4096,
        -4096 <= x1 <= 4096,
        -4096 <= y1 <= 4096,
        is_canvas(old(p)@, w as int, h as int),
    ensures
        is_canvas(final(p)@, w as int, h as int),
        forall|x: int, y: int|
            in_canvas(w as int, h as int, x, y) ==> #[trigger] alpha_at(final(p)@, w as int, x, y)
                == paint(
                seg_hit(
                    x0 as int,
                    y0 as int,
                    x1 as int,
                    y1 as int,
                    t as int,
                    (seg_steps(x0 as int, y0 as int, x1 as int, y1 as int) + 1) as nat,
                    x,
                    y,
                ),
                alpha_at(old(p)@, w as int, x, y),
            ),
{
    let ghost start = p@;
    let dx: i32 = if x1 - x0 < 0 { -(x1 - x0) } else { x1 - x0 };
    let dy: i32 = if y1 - y0 < 0 { -(y1 - y0) } else { y1 - y0 };
    let steps: i32 = if dx >= dy && dx >= 1 { dx } else if dy >= 1 { dy } else { 1 };
    let half: i32 = if t >= 1 { (t as i32 - 1) / 2 } else { 0 };
    let mut i: i32 = 0;
    while i <= steps
        invariant
            w <= MAX_CELL,
            h <= MAX_CELL,
            t <= 1000,
            -4096 <= x0 <= 4096,
            -4096 <= y0 <= 4096,
            -4096 <= x1 <= 4096,
            -4096 <= y1 <= 4096,
            dx == abs_of(x1 - x0),
            dy == abs_of(y1 - y0),
            steps == seg_steps(x0 as int, y0 as int, x1 as int, y1 as int),
            1 <= steps <= 8192,
            half == half_of(t as int),
            0 <= i <= steps + 1,
            is_canvas(p@, w as int, h as int),
            forall|x: int, y: int|
                in_canvas(w as int, h as int, x, y) ==> #[trigger] alpha_at(p@, w as int, x, y)
                    == paint(
                    seg_hit(x0 as int, y0 as int, x1 as int, y1 as int, t as int, i as nat, x, y),
                    alpha_at(start, w as int, x, y),
                ),
        decreases steps + 1 - i,
    {
        assert(-8192 * 8192 <= (x1 - x0) * i <= 8192 * 8192) by (nonlinear_arith)
            requires
                -8192 <= x1 - x0 <= 8192,
                0 <= i <= 8192,
        ;
        assert(-8192 * 8192 <= (y1 - y0) * i <= 8192 * 8192) by (nonlinear_arith)
            requires
                -8192 <= y1 - y0 <= 8192,
                0 <= i <= 8192,
        ;
        let x: i32 = x0 + tdiv(((x1 - x0) * i) as i64, steps as i64) as i32;
        let y: i32 = y0 + tdiv(((y1 - y0) * i) as i64, steps as i64) as i32;
        let mut tt: i32 = -half;
        while tt <= half
            invariant
                w <= MAX_CELL,
                h <= MAX_CELL,
                0 <= half <= 500,
                -half <= tt <= half + 1,
                -100000000 <= x <= 100000000,
                -100000000 <= y <= 100000000,
                0 <= i <= steps,
                dx == abs_of(x1 - x0),
                dy == abs_of(y1 - y0),
                steps == seg_steps(x0 as int, y0 as int, x1 as int, y1 as int),
                half == half_of(t as int),
                x == seg_coord(x0 as int, x1 as int, i as int, steps as int),
                y == seg_coord(y0 as int, y1 as int, i as int, steps as int),
                is_canvas(p@, w as int, h as int),
                forall|px: int, py: int|
                    in_canvas(w as int, h as int, px, py) ==> #[trigger] alpha_at(
                        p@,
                        w as int,
                        px,
                        py,
                    ) == paint(
                        seg_hit(
                            x0 as int,
                            y0 as int,
                            x1 as int,
                            y1 as int,
                            t as int,
                            i as nat,
                            px,
                            py,
                        ) || (if dx >= dy {
                            px == x && y - half <= py < y + tt
                        } else {
                            py == y && x - half <= px < x + tt
                        }),
                        alpha_at(start, w as int, px, py),
                    ),
            decreases half + 1 - tt,
        {
            if dx >= dy {
                set(p, w, h, x, y + tt, 0xFF);
            } else {
                set(p, w, h, x + tt, y, 0xFF);
            }
            tt = tt + 1;
        }
        i = i + 1;
    }
}

// ── rounded corners ──────────────────────────────────────────────────────────

/// Control points of a cubic Bézier curve, in quarter pixels.
pub struct Curve {
    pub sx: int,
    pub sy: int,
    pub c1x: int,
    pub c1y: int,
    pub c2x: int,
    pub c2y: int,
    pub ex: int,
    pub ey: int,
}

/// The arc of each rounded corner: from the middle of one cell edge to the
/// middle of the adjacent one, bulging through the cell centre.
pub open spec fn corner_curve(which: u32, w: int, h: int) -> Curve {
    if which == 0x256D {
        Curve { sx: 2 * w, sy: 4 * h, c1x: 2 * w, c1y: 2 * h + 4, c2x: 3 * w, c2y: 2 * h, ex: 4 * w, ey: 2 * h }
    } else if which == 0x256E {
        Curve { sx: 0, sy: 2 * h, c1x: w, c1y: 2 * h, c2x: 2 * w, c2y: 2 * h + 4, ex: 2 * w, ey: 4 * h }
    } else if which == 0x256F {
        Curve { sx: 0, sy: 2 * h, c1x: w, c1y: 2 * h, c2x: 2 * w, c2y: 2 * h - 4, ex: 2 * w, ey: 0 }
    } else {
        Curve { sx: 2 * w, sy: 0, c1x: 2 * w, c1y: 2 * h - 4, c2x: 3 * w, c2y: 2 * h, ex: 4 * w, ey: 2 * h }
    }
}

/// Numerator of the cubic Bernstein form at parameter `i / n`; the value of
/// the curve is this over `n * n * n`.
pub open spec fn bezier_num(n: int, i: int, s: int, c1: int, c2: int, e: int) -> int {
    let u = n - i;
    u * u * u * s + 3 * (u * u * i) * c1 + 3 * (u * i * i) * c2 + i * i * i * e
}

/// Pixel coordinate of sample `i` of `n`, for control values in quarter
/// pixels.
pub open spec fn bezier_px(n: int, i: int, s: int, c1: int, c2: int, e: int) -> int {
    trunc_div(bezier_num(n, i, s, c1, c2, e), 4 * (n * n * n))
}

/// Pixels stamped around sample `i` of a curve drawn with thickness `t` in a
/// cell of height `h`: a `t` by `t` square.
pub open spec fn curve_stamp(c: Curve, h: int, t: int, i: int, x: int, y: int) -> bool {
    let n = 4 * h;
    let ix = bezier_px(n, i, c.sx, c.c1x, c.c2x, c.ex);
    let iy = bezier_px(n, i, c.sy, c.c1y, c.c2y, c.ey);
    ix - t / 2 <= x < ix + t / 2 + t % 2 && iy - t / 2 <= y < iy + t / 2 + t % 2
}

/// Pixels stamped by the first `k` samples of a curve.
pub open spec fn curve_hit(c: Curve, h: int, t: int, k: nat, x: int, y: int) -> bool
    decreases k,
{
    k > 0 && (curve_stamp(c, h, t, k - 1, x, y) || curve_hit(c, h, t, (k - 1) as nat, x, y))
}

fn bezier_at(n: i64, i: i64, s: i64, c1: i64, c2: i64, e: i64) -> (v: i32)
    requires
        1 <= n <= 8192,
        0 <= i <= n,
        -16 <= s <= 8192,
        -16 <= c1 <= 8192,
        -16 <= c2 <= 8192,
        -16 <= e <= 8192,
    ensures
        v == bezier_px(n as int, i as int, s as int, c1 as int, c2 as int, e as int),
        -16 <= v <= 8192,
{
    let u: i64 = n - i;
    assert(0 <= u * u <= 8192 * 8192 && 0 <= u * i <= 8192 * 8192 && 0 <= i * i <= 8192 * 8192)
        by (nonlinear_arith)
        requires
            0 <= u <= 8192,
            0 <= i <= 8192,
    ;
    let uu: i64 = u * u;
    let ui: i64 = u * i;
    let ii: i64 = i * i;
    assert(0 <= uu * u <= 8192 * 8192 * 8192 && 0 <= uu * i <= 8192 * 8192 * 8192 && 0 <= ui * i
        <= 8192 * 8192 * 8192 && 0 <= ii * i <= 8192 * 8192 * 8192) by (nonlinear_arith)
        requires
            0 <= u <= 8192,
            0 <= i <= 8192,
            0 <= uu <= 8192 * 8192,
            0 <= ui <= 8192 * 8192,
            0 <= ii <= 8192 * 8192,
    ;
    let b0: i64 = uu * u;
    let b1: i64 = uu * i;
    let b2: i64 = ui * i;
    let b3: i64 = ii * i;
    assert(n * n * n == b0 + 3 * b1 + 3 * b2 + b3 && 1 <= n * n * n <= 8192 * 8192 * 8192)
        by (nonlinear_arith)
        requires
            u == n - i,
            b0 == u * u * u,
            b1 == u * u * i,
            b2 == u * i * i,
            b3 == i * i * i,
            1 <= n <= 8192,
    ;
    let ghost lo: int = -16;
    let ghost hi: int = 8192;
    assert(lo * b0 <= b0 * s <= hi * b0 && lo * b1 <= b1 * c1 <= hi * b1 && lo * b2 <= b2 * c2 <= hi
        * b2 && lo * b3 <= b3 * e <= hi * b3) by (nonlinear_arith)
        requires
            0 <= b0,
            0 <= b1,
            0 <= b2,
            0 <= b3,
            lo <= s <= hi,
            lo <= c1 <= hi,
            lo <= c2 <= hi,
            lo <= e <= hi,
    ;
    let num: i64 = b0 * s + 3 * (b1 * c1) + 3 * (b2 * c2) + b3 * e;
    assert(1 <= n * n <= 8192 * 8192) by (nonlinear_arith)
        requires
            1 <= n <= 8192,
    ;
    let den: i64 = 4 * (n * n * n);
    assert(num == bezier_num(n as int, i as int, s as int, c1 as int, c2 as int, e as int))
        by (nonlinear_arith)
        requires
            num == b0 * s + 3 * (b1 * c1) + 3 * (b2 * c2) + b3 * e,
            u == n - i,
            b0 == u * u * u,
            b1 == u * u * i,
            b2 == u * i * i,
            b3 == i * i * i,
            bezier_num(n as int, i as int, s as int, c1 as int, c2 as int, e as int) == (n - i) * (n
                - i) * (n - i) * s + 3 * ((n - i) * (n - i) * i) * c1 + 3 * ((n - i) * i * i) * c2
                + i * i * i * e,
    ;
    assert(lo * (n * n * n) <= num <= hi * (n * n * n));
    let q: i64 = tdiv(num, den);
    proof {
        let cube: int = n * n * n;
        let numi: int = num as int;
        let deni: int = den as int;
        if numi >= 0 {
            assert(numi / deni <= hi) by (nonlinear_arith)
                requires
                    0 <= numi <= hi * cube,
                    deni == 4 * cube,
                    cube >= 1,
                    hi >= 0,
            ;
        } else {
            assert((-numi) / deni <= 16) by (nonlinear_arith)
                requires
                    0 < -numi <= 16 * cube,
                    deni == 4 * cube,
                    cube >= 1,
            ;
        }
    }
    q as i32
}

fn rounded_corner(p: &mut Vec<u8>, w: u32, h: u32, t: u32, which: u32)
    requires
        w <= MAX_CELL,
        1 <= h <= MAX_CELL,
        t <= 1000,
        is_canvas(old(p)@, w as int, h as int),
    ensures
        is_canvas(final(p)@, w as int, h as int),
        forall|x: int, y: int|
            in_canvas(w as int, h as int, x, y) ==> #[trigger] alpha_at(final(p)@, w as int, x, y)
                == paint(
                curve_hit(
                    corner_curve(which, w as int, h as int),
                    h as int,
                    t as int,
                    (4 * h + 1) as nat,
                    x,
                    y,
                ),
                alpha_at(old(p)@, w as int, x, y),
            ),
{
    let ghost start = p@;
    let ghost c = corner_curve(which, w as int, h as int);
    let wq: i64 = w as i64;
    let hq: i64 = h as i64;
    let (sx, sy, c1x, c1y, c2x, c2y, ex, ey): (i64, i64, i64, i64, i64, i64, i64, i64) = if which
        == 0x256D {
        (2 * wq, 4 * hq, 2 * wq, 2 * hq + 4, 3 * wq, 2 * hq, 4 * wq, 2 * hq)
    } else if which == 0x256E {
        (0, 2 * hq, wq, 2 * hq, 2 * wq, 2 * hq + 4, 2 * wq, 4 * hq)
    } else if which == 0x256F {
        (0, 2 * hq, wq, 2 * hq, 2 * wq, 2 * hq - 4, 2 * wq, 0)
    } else {
        (2 * wq, 0, 2 * wq, 2 * hq - 4, 3 * wq, 2 * hq, 4 * wq, 2 * hq)
    };
    let n: i64 = hq * 4;
    let delta: i32 = (t / 2) as i32;
    let extra: i32 = (t % 2) as i32;
    let mut i: i64 = 0;
    while i <= n
        invariant
            w <= MAX_CELL,
            1 <= h <= MAX_CELL,
            t <= 1000,
            n == 4 * h,
            0 <= i <= n + 1,
            delta == t as int / 2,
            extra == t as int % 2,
            c == corner_curve(which, w as int, h as int),
            c == (Curve {
                sx: sx as int,
                sy: sy as int,
                c1x: c1x as int,
                c1y: c1y as int,
                c2x: c2x as int,
                c2y: c2y as int,
                ex: ex as int,
                ey: ey as int,
            }),
            -16 <= sx <= 8192 && -16 <= sy <= 8192 && -16 <= c1x <= 8192 && -16 <= c1y <= 8192,
            -16 <= c2x <= 8192 && -16 <= c2y <= 8192 && -16 <= ex <= 8192 && -16 <= ey <= 8192,
            is_canvas(p@, w as int, h as int),
            forall|x: int, y: int|
                in_canvas(w as int, h as int, x, y) ==> #[trigger] alpha_at(p@, w as int, x, y)
                    == paint(
                    curve_hit(c, h as int, t as int, i as nat, x, y),
                    alpha_at(start, w as int, x, y),
                ),
        decreases n + 1 - i,
    {
        let ix: i32 = bezier_at(n, i, sx, c1x, c2x, ex);
        let iy: i32 = bezier_at(n, i, sy, c1y, c2y, ey);
        let mut dy: i32 = -delta;
        while dy < delta + extra
            invariant
                w <= MAX_CELL,
                1 <= h <= MAX_CELL,
                0 <= delta <= 500,
                0 <= extra <= 1,
                -delta <= dy,
                dy <= delta + extra || dy == -delta,
                -16 <= ix <= 8192,
                -16 <= iy <= 8192,
                is_canvas(p@, w as int, h as int),
                forall|x: int, y: int|
                    in_canvas(w as int, h as int, x, y) ==> #[trigger] alpha_at(p@, w as int, x, y)
                        == paint(
                        curve_hit(c, h as int, t as int, i as nat, x, y) || (ix - delta <= x < ix
                            + delta + extra && iy - delta <= y < iy + dy),
                        alpha_at(start, w as int, x, y),
                    ),
            decreases delta + extra - dy,
        {
            let mut dx: i32 = -delta;
            while dx < delta + extra
                invariant
                    w <= MAX_CELL,
                    1 <= h <= MAX_CELL,
                    0 <= delta <= 500,
                    0 <= extra <= 1,
                    -delta <= dy < delta + extra,
                    -delta <= dx,
                    dx <= delta + extra || dx == -delta,
                    -16 <= ix <= 8192,
                    -16 <= iy <= 8192,
                    is_canvas(p@, w as int, h as int),
                    forall|x: int, y: int|
                        in_canvas(w as int, h as int, x, y) ==> #[trigger] alpha_at(
                            p@,
                            w as int,
                            x,
                            y,
                        ) == paint(
                            curve_hit(c, h as int, t as int, i as nat, x, y) || (ix - delta <= x
                                < ix + delta + extra && iy - delta <= y < iy + dy) || (y == iy + dy
                                && ix - delta <= x < ix + dx),
                            alpha_at(start, w as int, x, y),
                        ),
                decreases delta + extra - dx,
            {
                set(p, w, h, ix + dx, iy + dy, 0xFF);
                dx = dx + 1;
            }
            dy = dy + 1;
        }
        i = i + 1;
    }
}

// ── box drawing ──────────────────────────────────────────────────────────────

/// How one arm of a box-drawing character is drawn.
pub enum Stroke {
    Absent,
    Light,
    Heavy,
    Double,
}

/// The left, right, upper and lower arm of each box-drawing character that
/// is made of straight arms meeting at the cell centre.
pub open spec fn box_arms(cp: u32) -> (Stroke, Stroke, Stroke, Stroke) {
    match cp {
        0x2500 => (Stroke::Light, Stroke::Light, Stroke::Absent, Stroke::Absent),
        0x2501 => (Stroke::Heavy, Stroke::Heavy, Stroke::Absent, Stroke::Absent),
        0x2502 => (Stroke::Absent, Stroke::Absent, Stroke::Light, Stroke::Light),
        0x2503 => (Stroke::Absent, Stroke::Absent, Stroke::Heavy, Stroke::Heavy),
        0x250C => (Stroke::Absent, Stroke::Light, Stroke::Absent, Stroke::Light),
        0x250D => (Stroke::Absent, Stroke::Heavy, Stroke::Absent, Stroke::Light),
        0x250E => (Stroke::Absent, Stroke::Light, Stroke::Absent, Stroke::Heavy),
        0x250F => (Stroke::Absent, Stroke::Heavy, Stroke::Absent, Stroke::Heavy),
        0x2510 => (Stroke::Light, Stroke::Absent, Stroke::Absent, Stroke::Light),
        0x2511 => (Stroke::Heavy, Stroke::Absent, Stroke::Absent, Stroke::Light),
        0x2512 => (Stroke::Light, Stroke::Absent, Stroke::Absent, Stroke::Heavy),
        0x2513 => (Stroke::Heavy, Stroke::Absent, Stroke::Absent, Stroke::Heavy),
        0x2514 => (Stroke::Absent, Stroke::Light, Stroke::Light, Stroke::Absent),
        0x2515 => (Stroke::Absent, Stroke::Heavy, Stroke::Light, Stroke::Absent),
        0x2516 => (Stroke::Absent, Stroke::Light, Stroke::Heavy, Stroke::Absent),
        0x2517 => (Stroke::Absent, Stroke::Heavy, Stroke::Heavy, Stroke::Absent),
        0x2518 => (Stroke::Light, Stroke::Absent, Stroke::Light, Stroke::Absent),
        0x2519 => (Stroke::Heavy, Stroke::Absent, Stroke::Light, Stroke::Absent),
        0x251A => (Stroke::Light, Stroke::Absent, Stroke::Heavy, Stroke::Absent),
        0x251B => (Stroke::Heavy, Stroke::Absent, Stroke::Heavy, Stroke::Absent),
        0x251C => (Stroke::Absent, Stroke::Light, Stroke::Light, Stroke::Light),
        0x251D => (Stroke::Absent, Stroke::Heavy, Stroke::Light, Stroke::Light),
        0x2520 => (Stroke::Absent, Stroke::Light, Stroke::Heavy, Stroke::Heavy),
        0x2523 => (Stroke::Absent, Stroke::Heavy, Stroke::Heavy, Stroke::Heavy),
        0x2524 => (Stroke::Light, Stroke::Absent, Stroke::Light, Stroke::Light),
        0x2525 => (Stroke::Heavy, Stroke::Absent, Stroke::Light, Stroke::Light),
        0x2528 => (Stroke::Light, Stroke::Absent, Stroke::Heavy, Stroke::Heavy),
        0x252B => (Stroke::Heavy, Stroke::Absent, Stroke::Heavy, Stroke::Heavy),
        0x252C => (Stroke::Light, Stroke::Light, Stroke::Absent, Stroke::Light),
        0x252F => (Stroke::Heavy, Stroke::Heavy, Stroke::Absent, Stroke::Light),
        0x2530 => (Stroke::Light, Stroke::Light, Stroke::Absent, Stroke::Heavy),
        0x2533 => (Stroke::Heavy, Stroke::Heavy, Stroke::Absent, Stroke::Heavy),
        0x2534 => (Stroke::Light, Stroke::Light, Stroke::Light, Stroke::Absent),
        0x2537 => (Stroke::Heavy, Stroke::Heavy, Stroke::Light, Stroke::Absent),
        0x2538 => (Stroke::Light, Stroke::Light, Stroke::Heavy, Stroke::Absent),
        0x253B => (Stroke::Heavy, Stroke::Heavy, Stroke::Heavy, Stroke::Absent),
        0x253C => (Stroke::Light, Stroke::Light, Stroke::Light, Stroke::Light),
        0x253F => (Stroke::Heavy, Stroke::Heavy, Stroke::Light, Stroke::Light),
        0x2542 => (Stroke::Light, Stroke::Light, Stroke::Heavy, Stroke::Heavy),
        0x254B => (Stroke::Heavy, Stroke::Heavy, Stroke::Heavy, Stroke::Heavy),
        0x2550 => (Stroke::Double, Stroke::Double, Stroke::Absent, Stroke::Absent),
        0x2551 => (Stroke::Absent, Stroke::Absent, Stroke::Double, Stroke::Double),
        0x2554 => (Stroke::Absent, Stroke::Double, Stroke::Absent, Stroke::Double),
        0x2557 => (Stroke::Double, Stroke::Absent, Stroke::Absent, Stroke::Double),
        0x255A => (Stroke::Absent, Stroke::Double, Stroke::Double, Stroke::Absent),
        0x255D => (Stroke::Double, Stroke::Absent, Stroke::Double, Stroke::Absent),
        0x255E | 0x255F => (Stroke::Absent, Stroke::Light, Stroke::Double, Stroke::Double),
        0x2560 => (Stroke::Absent, Stroke::Double, Stroke::Double, Stroke::Double),
        0x2561 | 0x2562 => (Stroke::Light, Stroke::Absent, Stroke::Double, Stroke::Double),
        0x2563 => (Stroke::Double, Stroke::Absent, Stroke::Double, Stroke::Double),
        0x2564 | 0x2565 => (Stroke::Double, Stroke::Double, Stroke::Absent, Stroke::Light),
        0x2566 => (Stroke::Double, Stroke::Double, Stroke::Absent, Stroke::Double),
        0x2567 | 0x2568 => (Stroke::Double, Stroke::Double, Stroke::Light, Stroke::Absent),
        0x2569 => (Stroke::Double, Stroke::Double, Stroke::Double, Stroke::Absent),
        0x256C => (Stroke::Double, Stroke::Double, Stroke::Double, Stroke::Double),
        0x2574 => (Stroke::Light, Stroke::Absent, Stroke::Absent, Stroke::Absent),
        0x2575 => (Stroke::Absent, Stroke::Absent, Stroke::Light, Stroke::Absent),
        0x2576 => (Stroke::Absent, Stroke::Light, Stroke::Absent, Stroke::Absent),
        0x2577 => (Stroke::Absent, Stroke::Absent, Stroke::Absent, Stroke::Light),
        0x2578 => (Stroke::Heavy, Stroke::Absent, Stroke::Absent, Stroke::Absent),
        0x2579 => (Stroke::Absent, Stroke::Absent, Stroke::Heavy, Stroke::Absent),
        0x257A => (Stroke::Absent, Stroke::Heavy, Stroke::Absent, Stroke::Absent),
        0x257B => (Stroke::Absent, Stroke::Absent, Stroke::Absent, Stroke::Heavy),
        0x257C => (Stroke::Light, Stroke::Heavy, Stroke::Absent, Stroke::Absent),
        0x257D => (Stroke::Absent, Stroke::Absent, Stroke::Light, Stroke::Heavy),
        0x257E => (Stroke::Heavy, Stroke::Light, Stroke::Absent, Stroke::Absent),
        0x257F => (Stroke::Absent, Stroke::Absent, Stroke::Heavy, Stroke::Light),
        _ => (Stroke::Light, Stroke::Light, Stroke::Light, Stroke::Light),
    }
}

/// Line width of an arm.
pub open spec fn stroke_width(s: Stroke, h: int) -> int {
    if s is Heavy {
        thk_of(h)
    } else {
        norm_of(h)
    }
}

/// `v` lies on an arm's line, or on one of its two lines, centred on `c`.
pub open spec fn across(s: Stroke, c: int, h: int, v: int) -> bool {
    match s {
        Stroke::Absent => false,
        Stroke::Light => span(c, norm_of(h), v),
        Stroke::Heavy => span(c, thk_of(h), v),
        Stroke::Double => span(c - gap_of(norm_of(h)), norm_of(h), v) || span(
            c + gap_of(norm_of(h)),
            norm_of(h),
            v,
        ),
    }
}

/// Pixels of a character with the given four arms. Each arm runs from its
/// cell edge to half a line width past the centre.
pub open spec fn arms_hit(
    left: Stroke,
    right: Stroke,
    up: Stroke,
    down: Stroke,
    w: int,
    h: int,
    x: int,
    y: int,
) -> bool {
    ||| x < w / 2 + stroke_width(left, h) / 2 && across(left, h / 2, h, y)
    ||| x >= w / 2 - stroke_width(right, h) / 2 && across(right, h / 2, h, y)
    ||| y < h / 2 + stroke_width(up, h) / 2 && across(up, w / 2, h, x)
    ||| y >= h / 2 - stroke_width(down, h) / 2 && across(down, w / 2, h, x)
}

/// Pixels covered by the box-drawing character `cp` in a `w` by `h` cell.
pub open spec fn box_hit(cp: u32, w: int, h: int, x: int, y: int) -> bool {
    match cp {
        0x2504 | 0x2508 | 0x254C => dash_hit(w / 4, 2, x) && span(h / 2, norm_of(h), y),
        0x2505 | 0x2509 | 0x254D => dash_hit(w / 4, 2, x) && span(h / 2, thk_of(h), y),
        0x2506 | 0x250A => dash_hit(h / 4, 2, y) && span(w / 2, norm_of(h), x),
        0x2507 | 0x250B => dash_hit(h / 4, 2, y) && span(w / 2, thk_of(h), x),
        0x2571 => diag_hit(w, h, false, norm_of(h), x, y),
        0x2572 => diag_hit(w, h, true, norm_of(h), x, y),
        0x2573 => diag_hit(w, h, false, norm_of(h), x, y) || diag_hit(w, h, true, norm_of(h), x, y),
        0x256D | 0x256E | 0x256F | 0x2570 => curve_hit(
            corner_curve(cp, w, h),
            h,
            norm_of(h),
            (4 * h + 1) as nat,
            x,
            y,
        ),
        _ => arms_hit(box_arms(cp).0, box_arms(cp).1, box_arms(cp).2, box_arms(cp).3, w, h, x, y),
    }
}

fn draw_box(cp: u32, w: u32, h: u32) -> (p: Vec<u8>)
    requires
        w <= MAX_CELL,
        1 <= h <= MAX_CELL,
    ensures
        is_canvas(p@, w as int, h as int),
        forall|x: int, y: int|
            in_canvas(w as int, h as int, x, y) ==> #[trigger] alpha_at(p@, w as int, x, y) == paint(
                box_hit(cp, w as int, h as int, x, y),
                0,
            ),
{
    let mut p = buf(w, h);
    let n: u32 = norm(h);
    let k: u32 = thk(h);
    let cx: i32 = w as i32 / 2;
    let cy: i32 = h as i32 / 2;
    match cp {
        0x2500 => hl(&mut p, w, h, cy, n),
        0x2501 => hl(&mut p, w, h, cy, k),
        0x2502 => vl(&mut p, w, h, cx, n),
        0x2503 => vl(&mut p, w, h, cx, k),
        0x2504 | 0x2508 | 0x254C => dashed_h(&mut p, w, h, cy, n, 2),
        0x2505 | 0x2509 | 0x254D => dashed_h(&mut p, w, h, cy, k, 2),
        0x2506 | 0x250A => dashed_v(&mut p, w, h, cx, n, 2),
        0x2507 | 0x250B => dashed_v(&mut p, w, h, cx, k, 2),
        // light corners
        0x250C => {
            hl_r(&mut p, w, h, cy, n);
            vl_b(&mut p, w, h, cx, n);
        }
        0x2510 => {
            hl_l(&mut p, w, h, cy, n);
            vl_b(&mut p, w, h, cx, n);
        }
        0x2514 => {
            hl_r(&mut p, w, h, cy, n);
            vl_t(&mut p, w, h, cx, n);
        }
        0x2518 => {
            hl_l(&mut p, w, h, cy, n);
            vl_t(&mut p, w, h, cx, n);
        }
        // thick corners
        0x250F => {
            hl_r(&mut p, w, h, cy, k);
            vl_b(&mut p, w, h, cx, k);
        }
        0x2513 => {
            hl_l(&mut p, w, h, cy, k);
            vl_b(&mut p, w, h, cx, k);
        }
        0x2517 => {
            hl_r(&mut p, w, h, cy, k);
            vl_t(&mut p, w, h, cx, k);
        }
        0x251B => {
            hl_l(&mut p, w, h, cy, k);
            vl_t(&mut p, w, h, cx, k);
        }
        // mixed corners
        0x250D => {
            hl_r(&mut p, w, h, cy, k);
            vl_b(&mut p, w, h, cx, n);
        }
        0x2511 => {
            hl_l(&mut p, w, h, cy, k);
            vl_b(&mut p, w, h, cx, n);
        }
        0x2515 => {
            hl_r(&mut p, w, h, cy, k);
            vl_t(&mut p, w, h, cx, n);
        }
        0x2519 => {
            hl_l(&mut p, w, h, cy, k);
            vl_t(&mut p, w, h, cx, n);
        }
        0x250E => {
            hl_r(&mut p, w, h, cy, n);
            vl_b(&mut p, w, h, cx, k);
        }
        0x2512 => {
            hl_l(&mut p, w, h, cy, n);
            vl_b(&mut p, w, h, cx, k);
        }
        0x2516 => {
            hl_r(&mut p, w, h, cy, n);
            vl_t(&mut p, w, h, cx, k);
        }
        0x251A => {
            hl_l(&mut p, w, h, cy, n);
            vl_t(&mut p, w, h, cx, k);
        }
        // light T-junctions
        0x251C => {
            hl_r(&mut p, w, h, cy, n);
            vl(&mut p, w, h, cx, n);
        }
        0x2524 => {
            hl_l(&mut p, w, h, cy, n);
            vl(&mut p, w, h, cx, n);
        }
        0x252C => {
            hl(&mut p, w, h, cy, n);
            vl_b(&mut p, w, h, cx, n);
        }
        0x2534 => {
            hl(&mut p, w, h, cy, n);
            vl_t(&mut p, w, h, cx, n);
        }
        0x253C => {
            hl(&mut p, w, h, cy, n);
            vl(&mut p, w, h, cx, n);
        }
        // thick T-junctions
        0x2523 => {
            hl_r(&mut p, w, h, cy, k);
            vl(&mut p, w, h, cx, k);
        }
        0x252B => {
            hl_l(&mut p, w, h, cy, k);
            vl(&mut p, w, h, cx, k);
        }
        0x2533 => {
            hl(&mut p, w, h, cy, k);
            vl_b(&mut p, w, h, cx, k);
        }
        0x253B => {
            hl(&mut p, w, h, cy, k);
            vl_t(&mut p, w, h, cx, k);
        }
        0x254B => {
            hl(&mut p, w, h, cy, k);
            vl(&mut p, w, h, cx, k);
        }
        // mixed T-junctions
        0x251D => {
            hl_r(&mut p, w, h, cy, k);
            vl(&mut p, w, h, cx, n);
        }
        0x2525 => {
            hl_l(&mut p, w, h, cy, k);
            vl(&mut p, w, h, cx, n);
        }
        0x252F => {
            hl(&mut p, w, h, cy, k);
            vl_b(&mut p, w, h, cx, n);
        }
        0x2537 => {
            hl(&mut p, w, h, cy, k);
            vl_t(&mut p, w, h, cx, n);
        }
        0x253F => {
            hl(&mut p, w, h, cy, k);
            vl(&mut p, w, h, cx, n);
        }
        0x2520 => {
            hl_r(&mut p, w, h, cy, n);
            vl(&mut p, w, h, cx, k);
        }
        0x2528 => {
            hl_l(&mut p, w, h, cy, n);
            vl(&mut p, w, h, cx, k);
        }
        0x2530 => {
            hl(&mut p, w, h, cy, n);
            vl_b(&mut p, w, h, cx, k);
        }
        0x2538 => {
            hl(&mut p, w, h, cy, n);
            vl_t(&mut p, w, h, cx, k);
        }
        0x2542 => {
            hl(&mut p, w, h, cy, n);
            vl(&mut p, w, h, cx, k);
        }
        // double lines
        0x2550 => dbl_hl(&mut p, w, h, cy, n),
        0x2551 => dbl_vl(&mut p, w, h, cx, n),
        0x2554 => {
            dbl_hl_r(&mut p, w, h, cy, n);
            dbl_vl_b(&mut p, w, h, cx, n);
        }
        0x2557 => {
            dbl_hl_l(&mut p, w, h, cy, n);
            dbl_vl_b(&mut p, w, h, cx, n);
        }
        0x255A => {
            dbl_hl_r(&mut p, w, h, cy, n);
            dbl_vl_t(&mut p, w, h, cx, n);
        }
        0x255D => {
            dbl_hl_l(&mut p, w, h, cy, n);
            dbl_vl_t(&mut p, w, h, cx, n);
        }
        0x2560 => {
            dbl_hl_r(&mut p, w, h, cy, n);
            dbl_vl(&mut p, w, h, cx, n);
        }
        0x2563 => {
            dbl_hl_l(&mut p, w, h, cy, n);
            dbl_vl(&mut p, w, h, cx, n);
        }
        0x2566 => {
            dbl_hl(&mut p, w, h, cy, n);
            dbl_vl_b(&mut p, w, h, cx, n);
        }
        0x2569 => {
            dbl_hl(&mut p, w, h, cy, n);
            dbl_vl_t(&mut p, w, h, cx, n);
        }
        0x256C => {
            dbl_hl(&mut p, w, h, cy, n);
            dbl_vl(&mut p, w, h, cx, n);
        }
        // mixed single/double
        0x255E | 0x255F => {
            hl_r(&mut p, w, h, cy, n);
            dbl_vl(&mut p, w, h, cx, n);
        }
        0x2561 | 0x2562 => {
            hl_l(&mut p, w, h, cy, n);
            dbl_vl(&mut p, w, h, cx, n);
        }
        0x2564 | 0x2565 => {
            dbl_hl(&mut p, w, h, cy, n);
            vl_b(&mut p, w, h, cx, n);
        }
        0x2567 | 0x2568 => {
            dbl_hl(&mut p, w, h, cy, n);
            vl_t(&mut p, w, h, cx, n);
        }
        // diagonals
        0x2571 => diag(&mut p, w, h, false, n),
        0x2572 => diag(&mut p, w, h, true, n),
        0x2573 => {
            diag(&mut p, w, h, false, n);
            diag(&mut p, w, h, true, n);
        }
        // half stubs
        0x2574 => hl_l(&mut p, w, h, cy, n),
        0x2575 => vl_t(&mut p, w, h, cx, n),
        0x2576 => hl_r(&mut p, w, h, cy, n),
        0x2577 => vl_b(&mut p, w, h, cx, n),
        0x2578 => hl_l(&mut p, w, h, cy, k),
        0x2579 => vl_t(&mut p, w, h, cx, k),
        0x257A => hl_r(&mut p, w, h, cy, k),
        0x257B => vl_b(&mut p, w, h, cx, k),
        0x257C => {
            hl_l(&mut p, w, h, cy, n);
            hl_r(&mut p, w, h, cy, k);
        }
        0x257D => {
            vl_t(&mut p, w, h, cx, n);
            vl_b(&mut p, w, h, cx, k);
        }
        0x257E => {
            hl_l(&mut p, w, h, cy, k);
            hl_r(&mut p, w, h, cy, n);
        }
        0x257F => {
            vl_t(&mut p, w, h, cx, k);
            vl_b(&mut p, w, h, cx, n);
        }
        // rounded corners
        0x256D => rounded_corner(&mut p, w, h, n, 0x256D),
        0x256E => rounded_corner(&mut p, w, h, n, 0x256E),
        0x256F => rounded_corner(&mut p, w, h, n, 0x256F),
        0x2570 => rounded_corner(&mut p, w, h, n, 0x2570),
        _ => {
            hl(&mut p, w, h, cy, n);
            vl(&mut p, w, h, cx, n);
        }
    }
    p
}

// ── block elements ───────────────────────────────────────────────────────────

/// Quadrants filled by a quadrant block character: upper left, upper right,
/// lower left, lower right.
pub open spec fn quadrants(cp: u32) -> (bool, bool, bool, bool) {
    match cp {
        0x2596 => (false, false, true, false),
        0x2597 => (false, false, false, true),
        0x2598 => (true, false, false, false),
        0x2599 => (true, false, true, true),
        0x259A => (true, false, false, true),
        0x259B => (true, true, true, false),
        0x259C => (true, true, false, true),
        0x259D => (false, true, false, false),
        0x259E => (false, true, true, false),
        _ => (false, true, true, true),
    }
}

/// Pixels filled by the block element `cp`, the shades excepted.
pub open spec fn block_hit(cp: u32, w: int, h: int, x: int, y: int) -> bool {
    if cp == 0x2580 {
        y < h / 2
    } else if 0x2581 <= cp <= 0x2587 {
        y >= h - (h * (cp - 0x2580) + 4) / 8
    } else if cp == 0x2584 {
        y >= h / 2
    } else if 0x2589 <= cp <= 0x258F && cp != 0x258C {
        x < w - (w * (0x2590 - cp) + 4) / 8
    } else if cp == 0x258C {
        x < w / 2
    } else if cp == 0x2590 {
        x >= w / 2
    } else if cp == 0x2594 {
        y < (h + 7) / 8
    } else if cp == 0x2595 {
        x >= w - (w + 7) / 8
    } else if 0x2596 <= cp <= 0x259F {
        let q = quadrants(cp);
        if y < h / 2 {
            if x < w / 2 {
                q.0
            } else {
                q.1
            }
        } else {
            if x < w / 2 {
                q.2
            } else {
                q.3
            }
        }
    } else {
        true
    }
}

/// Alpha of each pixel of the block element `cp`: the three shades are
/// checkerboards of a quarter, a half and three quarters coverage.
pub open spec fn block_alpha(cp: u32, w: int, h: int, x: int, y: int) -> u8 {
    if 0x2591 <= cp <= 0x2593 {
        if (x + y) % 2 == 0 {
            (64 * (cp - 0x2590)) as u8
        } else {
            0
        }
    } else {
        paint(block_hit(cp, w, h, x, y), 0)
    }
}

fn shade(p: &mut Vec<u8>, w: u32, h: u32, a: u8)
    requires
        w <= MAX_CELL,
        h <= MAX_CELL,
        is_canvas(old(p)@, w as int, h as int),
    ensures
        is_canvas(final(p)@, w as int, h as int),
        forall|x: int, y: int|
            in_canvas(w as int, h as int, x, y) ==> #[trigger] alpha_at(final(p)@, w as int, x, y)
                == (if (x + y) % 2 == 0 && a > alpha_at(old(p)@, w as int, x, y) {
                a
            } else {
                alpha_at(old(p)@, w as int, x, y)
            }),
{
    let ghost start = p@;
    let mut y: i32 = 0;
    while y < h as i32
        invariant
            w <= MAX_CELL,
            h <= MAX_CELL,
            0 <= y <= h,
            is_canvas(p@, w as int, h as int),
            forall|px: int, py: int|
                in_canvas(w as int, h as int, px, py) ==> #[trigger] alpha_at(p@, w as int, px, py)
                    == (if py < y && (px + py) % 2 == 0 && a > alpha_at(start, w as int, px, py) {
                    a
                } else {
                    alpha_at(start, w as int, px, py)
                }),
        decreases h - y,
    {
        let mut x: i32 = 0;
        while x < w as i32
            invariant
                w <= MAX_CELL,
                h <= MAX_CELL,
                0 <= y < h,
                0 <= x <= w,
                is_canvas(p@, w as int, h as int),
                forall|px: int, py: int|
                    in_canvas(w as int, h as int, px, py) ==> #[trigger] alpha_at(
                        p@,
                        w as int,
                        px,
                        py,
                    ) == (if (py < y || (py == y && px < x)) && (px + py) % 2 == 0 && a > alpha_at(
                        start,
                        w as int,
                        px,
                        py,
                    ) {
                        a
                    } else {
                        alpha_at(start, w as int, px, py)
                    }),
            decreases w - x,
        {
            if (x + y) % 2 == 0 {
                set(p, w, h, x, y, a);
            }
            x = x + 1;
        }
        y = y + 1;
    }
}

fn draw_block(cp: u32, w: u32, h: u32) -> (p: Vec<u8>)
    requires
        w <= MAX_CELL,
        h <= MAX_CELL,
        0x2580 <= cp <= 0x259F,
    ensures
        is_canvas(p@, w as int, h as int),
        forall|x: int, y: int|
            in_canvas(w as int, h as int, x, y) ==> #[trigger] alpha_at(p@, w as int, x, y)
                == block_alpha(cp, w as int, h as int, x, y),
{
    let mut p = buf(w, h);
    let wi: i32 = w as i32;
    let hi: i32 = h as i32;
    match cp {
        0x2580 => rect(&mut p, w, h, 0, 0, wi, hi / 2),
        0x2584 => rect(&mut p, w, h, 0, hi / 2, wi, hi),
        0x2588 => rect(&mut p, w, h, 0, 0, wi, hi),
        0x258C => rect(&mut p, w, h, 0, 0, wi / 2, hi),
        0x2590 => rect(&mut p, w, h, wi / 2, 0, wi, hi),
        0x2581..=0x2587 => {
            let n: i32 = (cp - 0x2580) as i32;
            assert(0 <= hi * n <= 2048 * 7) by (nonlinear_arith)
                requires
                    0 <= hi <= 2048,
                    0 <= n <= 7,
            ;
            rect(&mut p, w, h, 0, hi - (hi * n + 4) / 8, wi, hi);
        },
        0x2594 => rect(&mut p, w, h, 0, 0, wi, (hi + 7) / 8),
        0x2595 => rect(&mut p, w, h, wi - (wi + 7) / 8, 0, wi, hi),
        0x2589..=0x258F => {
            let n: i32 = (0x2590 - cp) as i32;
            assert(0 <= wi * n <= 2048 * 7) by (nonlinear_arith)
                requires
                    0 <= wi <= 2048,
                    0 <= n <= 7,
            ;
            rect(&mut p, w, h, 0, 0, wi - (wi * n + 4) / 8, hi);
        },
        0x2596 => rect(&mut p, w, h, 0, hi / 2, wi / 2, hi),
        0x2597 => rect(&mut p, w, h, wi / 2, hi / 2, wi, hi),
        0x2598 => rect(&mut p, w, h, 0, 0, wi / 2, hi / 2),
        0x2599 => {
            rect(&mut p, w, h, 0, 0, wi / 2, hi);
            rect(&mut p, w, h, wi / 2, hi / 2, wi, hi);
        },
        0x259A => {
            rect(&mut p, w, h, 0, 0, wi / 2, hi / 2);
            rect(&mut p, w, h, wi / 2, hi / 2, wi, hi);
        },
        0x259B => {
            rect(&mut p, w, h, 0, 0, wi, hi / 2);
            rect(&mut p, w, h, 0, hi / 2, wi / 2, hi);
        },
        0x259C => {
            rect(&mut p, w, h, 0, 0, wi, hi / 2);
            rect(&mut p, w, h, wi / 2, hi / 2, wi, hi);
        },
        0x259D => rect(&mut p, w, h, wi / 2, 0, wi, hi / 2),
        0x259E => {
            rect(&mut p, w, h, 0, hi / 2, wi / 2, hi);
            rect(&mut p, w, h, wi / 2, 0, wi, hi / 2);
        },
        0x259F => {
            rect(&mut p, w, h, wi / 2, 0, wi, hi);
            rect(&mut p, w, h, 0, hi / 2, wi / 2, hi);
        },
        0x2591 => shade(&mut p, w, h, 64),
        0x2592 => shade(&mut p, w, h, 128),
        0x2593 => shade(&mut p, w, h, 192),
        _ => rect(&mut p, w, h, 0, 0, wi, hi),
    }
    p
}

// ── braille ──────────────────────────────────────────────────────────────────

/// Bit `bit` of a braille pattern is raised.
pub open spec fn dot_raised(bits: u32, bit: u32) -> bool {
    bits & (1u32 << bit) != 0
}

/// Column (0 or 1) of the dot that bit `bit` selects.
pub open spec fn dot_col(bit: int) -> int {
    if bit == 3 || bit == 4 || bit == 5 || bit == 7 {
        1
    } else {
        0
    }
}

/// Row (0 to 3) of the dot that bit `bit` selects.
pub open spec fn dot_row(bit: int) -> int {
    if bit == 6 || bit == 7 {
        3
    } else if bit < 3 {
        bit
    } else {
        bit - 3
    }
}

/// Dot centres in hundredths of a pixel: columns at 30% and 70% of the
/// width, rows at 15%, 38%, 62% and 85% of the height.
pub open spec fn dot_cx(w: int, col: int) -> int {
    if col == 0 {
        30 * w
    } else {
        70 * w
    }
}

pub open spec fn dot_cy(h: int, row: int) -> int {
    if row == 0 {
        15 * h
    } else if row == 1 {
        38 * h
    } else if row == 2 {
        62 * h
    } else {
        85 * h
    }
}

/// Dot radius in hundredths of a pixel: a tenth of the width, at least 1.5.
pub open spec fn dot_radius(w: int) -> int {
    if 10 * w < 150 {
        150
    } else {
        10 * w
    }
}

/// Squared distance of pixel `(x, y)` from `(cx, cy)`, scaled by 25500.
pub open spec fn dot_dist2(cx: int, cy: int, x: int, y: int) -> int {
    255 * 255 * ((100 * x - cx) * (100 * x - cx) + (100 * y - cy) * (100 * y - cy))
}

/// A pixel at squared distance `d2` from a dot of radius `r` is covered to
/// at least `k` parts in 255: its distance is at most `r + 0.5 - k / 255`.
pub open spec fn covers(r: int, d2: int, k: int) -> bool {
    let reach = 255 * (r + 50) - 100 * k;
    reach >= 0 && reach * reach >= d2
}

/// Largest coverage up to `k` that holds, or 0.
pub open spec fn coverage_upto(r: int, d2: int, k: nat) -> int
    decreases k,
{
    if k == 0 {
        0
    } else if covers(r, d2, k as int) {
        k as int
    } else {
        coverage_upto(r, d2, (k - 1) as nat)
    }
}

/// Alpha that one anti-aliased dot gives pixel `(x, y)`: full inside the
/// radius, falling off linearly over the next pixel.
pub open spec fn dot_alpha(w: int, h: int, bit: int, x: int, y: int) -> int {
    coverage_upto(
        dot_radius(w),
        dot_dist2(dot_cx(w, dot_col(bit)), dot_cy(h, dot_row(bit)), x, y),
        255,
    )
}

pub open spec fn max_of(a: int, b: int) -> int {
    if a >= b {
        a
    } else {
        b
    }
}

/// Alpha of pixel `(x, y)` from the raised dots among the first `n` bits.
pub open spec fn braille_upto(bits: u32, w: int, h: int, n: nat, x: int, y: int) -> int
    decreases n,
{
    if n == 0 {
        0
    } else {
        max_of(
            braille_upto(bits, w, h, (n - 1) as nat, x, y),
            if dot_raised(bits, (n - 1) as u32) {
                dot_alpha(w, h, n - 1, x, y)
            } else {
                0
            },
        )
    }
}

proof fn lemma_coverage_range(r: int, d2: int, k: nat)
    ensures
        0 <= coverage_upto(r, d2, k) <= k,
    decreases k,
{
    if k > 0 {
        lemma_coverage_range(r, d2, (k - 1) as nat);
    }
}

proof fn lemma_braille_range(bits: u32, w: int, h: int, n: nat, x: int, y: int)
    ensures
        0 <= braille_upto(bits, w, h, n, x, y) <= 255,
    decreases n,
{
    if n > 0 {
        lemma_braille_range(bits, w, h, (n - 1) as nat, x, y);
        lemma_coverage_range(
            dot_radius(w),
            dot_dist2(dot_cx(w, dot_col(n - 1)), dot_cy(h, dot_row(n - 1)), x, y),
            255,
        );
    }
}

/// Coverage of the pixel at `(x, y)` by a dot centred on `(cx, cy)`.
fn dot_coverage(r: i64, cx: i64, cy: i64, x: i64, y: i64) -> (a: u8)
    requires
        150 <= r <= 20480,
        0 <= cx <= 70 * 2048,
        0 <= cy <= 85 * 2048,
        0 <= x <= 2048,
        0 <= y <= 2048,
    ensures
        a == coverage_upto(r as int, dot_dist2(cx as int, cy as int, x as int, y as int), 255),
{
    let dx: i64 = 100 * x - cx;
    let dy: i64 = 100 * y - cy;
    assert(0 <= dx * dx <= 204800 * 204800 && 0 <= dy * dy <= 204800 * 204800) by (nonlinear_arith)
        requires
            -204800 <= dx <= 204800,
            -204800 <= dy <= 204800,
    ;
    let d2: i64 = 255 * 255 * (dx * dx + dy * dy);
    let top: i64 = 255 * (r + 50);
    let mut k: i64 = 255;
    while k > 0
        invariant
            0 <= k <= 255,
            150 <= r <= 20480,
            top == 255 * (r + 50),
            d2 == dot_dist2(cx as int, cy as int, x as int, y as int),
            coverage_upto(r as int, d2 as int, 255) == coverage_upto(r as int, d2 as int, k as nat),
        decreases k,
    {
        let reach: i64 = top - 100 * k;
        assert(0 <= reach * reach <= 5235150 * 5235150) by (nonlinear_arith)
            requires
                0 <= reach <= 5235150,
        ;
        if reach * reach >= d2 {
            return k as u8;
        }
        k = k - 1;
    }
    0
}

/// Raise every pixel to its coverage by the dot of bit `bit`.
fn circle_aa(p: &mut Vec<u8>, w: u32, h: u32, bit: u32)
    requires
        w <= MAX_CELL,
        h <= MAX_CELL,
        bit < 8,
        is_canvas(old(p)@, w as int, h as int),
    ensures
        is_canvas(final(p)@, w as int, h as int),
        forall|x: int, y: int|
            in_canvas(w as int, h as int, x, y) ==> #[trigger] alpha_at(final(p)@, w as int, x, y)
                == max_of(
                alpha_at(old(p)@, w as int, x, y) as int,
                dot_alpha(w as int, h as int, bit as int, x, y),
            ),
{
    let ghost start = p@;
    let r: i64 = if 10 * (w as i64) < 150 { 150 } else { 10 * (w as i64) };
    let col: u32 = if bit == 3 || bit == 4 || bit == 5 || bit == 7 { 1 } else { 0 };
    let row: u32 = if bit == 6 || bit == 7 { 3 } else if bit < 3 { bit } else { bit - 3 };
    let cx: i64 = if col == 0 { 30 * (w as i64) } else { 70 * (w as i64) };
    let cy: i64 = if row == 0 {
        15 * (h as i64)
    } else if row == 1 {
        38 * (h as i64)
    } else if row == 2 {
        62 * (h as i64)
    } else {
        85 * (h as i64)
    };
    let mut y: i32 = 0;
    while y < h as i32
        invariant
            w <= MAX_CELL,
            h <= MAX_CELL,
            0 <= y <= h,
            r == dot_radius(w as int),
            cx == dot_cx(w as int, dot_col(bit as int)),
            cy == dot_cy(h as int, dot_row(bit as int)),
            is_canvas(p@, w as int, h as int),
            forall|px: int, py: int|
                in_canvas(w as int, h as int, px, py) ==> #[trigger] alpha_at(p@, w as int, px, py)
                    == (if py < y {
                    max_of(
                        alpha_at(start, w as int, px, py) as int,
                        dot_alpha(w as int, h as int, bit as int, px, py),
                    )
                } else {
                    alpha_at(start, w as int, px, py) as int
                }),
        decreases h - y,
    {
        let mut x: i32 = 0;
        while x < w as i32
            invariant
                w <= MAX_CELL,
                h <= MAX_CELL,
                0 <= y < h,
                0 <= x <= w,
                r == dot_radius(w as int),
                cx == dot_cx(w as int, dot_col(bit as int)),
                cy == dot_cy(h as int, dot_row(bit as int)),
                is_canvas(p@, w as int, h as int),
                forall|px: int, py: int|
                    in_canvas(w as int, h as int, px, py) ==> #[trigger] alpha_at(
                        p@,
                        w as int,
                        px,
                        py,
                    ) == (if py < y || (py == y && px < x) {
                        max_of(
                            alpha_at(start, w as int, px, py) as int,
                            dot_alpha(w as int, h as int, bit as int, px, py),
                        )
                    } else {
                        alpha_at(start, w as int, px, py) as int
                    }),
            decreases w - x,
        {
            let a: u8 = dot_coverage(r, cx, cy, x as i64, y as i64);
            set(p, w, h, x, y, a);
            x = x + 1;
        }
        y = y + 1;
    }
}

fn draw_braille(cp: u32, w: u32, h: u32) -> (p: Vec<u8>)
    requires
        w <= MAX_CELL,
        h <= MAX_CELL,
        0x2800 <= cp <= 0x28FF,
    ensures
        is_canvas(p@, w as int, h as int),
        forall|x: int, y: int|
            in_canvas(w as int, h as int, x, y) ==> #[trigger] alpha_at(p@, w as int, x, y)
                == braille_upto((cp - 0x2800) as u32, w as int, h as int, 8, x, y),
{
    let mut p = buf(w, h);
    let bits: u32 = cp - 0x2800;
    let mut bit: u32 = 0;
    while bit < 8
        invariant
            w <= MAX_CELL,
            h <= MAX_CELL,
            bit <= 8,
            bits == cp - 0x2800,
            is_canvas(p@, w as int, h as int),
            forall|x: int, y: int|
                in_canvas(w as int, h as int, x, y) ==> #[trigger] alpha_at(p@, w as int, x, y)
                    == braille_upto(bits, w as int, h as int, bit as nat, x, y),
        decreases 8 - bit,
    {
        if bits & (1u32 << bit) != 0 {
            circle_aa(&mut p, w, h, bit);
        }
        proof {
            assert forall|x: int, y: int| in_canvas(w as int, h as int, x, y) implies #[trigger] alpha_at(
                p@,
                w as int,
                x,
                y,
            ) == braille_upto(bits, w as int, h as int, (bit + 1) as nat, x, y) by {
                lemma_braille_range(bits, w as int, h as int, bit as nat, x, y);
            }
        }
        bit = bit + 1;
    }
    p
}

// ── Powerline ────────────────────────────────────────────────────────────────

/// Columns cut off in row `y` by a triangle whose apex is at mid height:
/// none at the middle, all of them at the top and bottom edge.
pub open spec fn taper(w: int, h: int, y: int) -> int {
    abs_of(2 * y - h) * w / h
}

fn taper_at(w: u32, h: u32, y: i32) -> (q: i32)
    requires
        w <= MAX_CELL,
        1 <= h <= MAX_CELL,
        0 <= y < h,
    ensures
        q == taper(w as int, h as int, y as int),
        0 <= q <= w,
{
    let d: i32 = if 2 * y - (h as i32) < 0 { (h as i32) - 2 * y } else { 2 * y - (h as i32) };
    assert(0 <= d * w <= h * w && h * w <= 2048 * 2048) by (nonlinear_arith)
        requires
            0 <= d <= h,
            0 <= w <= 2048,
            h <= 2048,
    ;
    proof {
        vstd::arithmetic::div_mod::lemma_div_pos_is_pos(d * w, h as int);
        vstd::arithmetic::div_mod::lemma_div_is_ordered(d * w, h * w, h as int);
        vstd::arithmetic::div_mod::lemma_div_multiples_vanish(w as int, h as int);
        assert(h * w == w * h) by (nonlinear_arith);
    }
    d * (w as i32) / (h as i32)
}

fn draw_pl_right_solid(w: u32, h: u32) -> (p: Vec<u8>)
    requires
        w <= MAX_CELL,
        1 <= h <= MAX_CELL,
    ensures
        is_canvas(p@, w as int, h as int),
        forall|x: int, y: int|
            in_canvas(w as int, h as int, x, y) ==> #[trigger] alpha_at(p@, w as int, x, y) == paint(
                x < w - taper(w as int, h as int, y),
                0,
            ),
{
    let mut p = buf(w, h);
    let mut y: i32 = 0;
    while y < h as i32
        invariant
            w <= MAX_CELL,
            1 <= h <= MAX_CELL,
            0 <= y <= h,
            is_canvas(p@, w as int, h as int),
            forall|px: int, py: int|
                in_canvas(w as int, h as int, px, py) ==> #[trigger] alpha_at(p@, w as int, px, py)
                    == paint(py < y && px < w - taper(w as int, h as int, py), 0),
        decreases h - y,
    {
        let x_max: i32 = w as i32 - taper_at(w, h, y);
        rect(&mut p, w, h, 0, y, x_max, y + 1);
        y = y + 1;
    }
    p
}

fn draw_pl_left_solid(w: u32, h: u32) -> (p: Vec<u8>)
    requires
        w <= MAX_CELL,
        1 <= h <= MAX_CELL,
    ensures
        is_canvas(p@, w as int, h as int),
        forall|x: int, y: int|
            in_canvas(w as int, h as int, x, y) ==> #[trigger] alpha_at(p@, w as int, x, y) == paint(
                x >= taper(w as int, h as int, y),
                0,
            ),
{
    let mut p = buf(w, h);
    let mut y: i32 = 0;
    while y < h as i32
        invariant
            w <= MAX_CELL,
            1 <= h <= MAX_CELL,
            0 <= y <= h,
            is_canvas(p@, w as int, h as int),
            forall|px: int, py: int|
                in_canvas(w as int, h as int, px, py) ==> #[trigger] alpha_at(p@, w as int, px, py)
                    == paint(py < y && px >= taper(w as int, h as int, py), 0),
        decreases h - y,
    {
        let x_min: i32 = taper_at(w, h, y);
        rect(&mut p, w, h, x_min, y, w as i32, y + 1);
        y = y + 1;
    }
    p
}

/// Pixels of a hollow arrow: two strokes from the corners of the edge at
/// column `x_open` to the mid height of the edge at column `x_tip`.
pub open spec fn chevron_hit(x_open: int, x_tip: int, h: int, t: int, x: int, y: int) -> bool {
    seg_hit(x_open, 0, x_tip, h / 2, t, (seg_steps(x_open, 0, x_tip, h / 2) + 1) as nat, x, y)
        || seg_hit(
        x_open,
        h - 1,
        x_tip,
        h / 2,
        t,
        (seg_steps(x_open, h - 1, x_tip, h / 2) + 1) as nat,
        x,
        y,
    )
}

fn draw_pl_right_hollow(w: u32, h: u32) -> (p: Vec<u8>)
    requires
        w <= MAX_CELL,
        h <= MAX_CELL,
    ensures
        is_canvas(p@, w as int, h as int),
        forall|x: int, y: int|
            in_canvas(w as int, h as int, x, y) ==> #[trigger] alpha_at(p@, w as int, x, y) == paint(
                chevron_hit(0, w - 1, h as int, norm_of(h as int), x, y),
                0,
            ),
{
    let mut p = buf(w, h);
    let t: u32 = norm(h);
    let wi: i32 = w as i32;
    let hi: i32 = h as i32;
    diag_seg(&mut p, w, h, 0, 0, wi - 1, hi / 2, t);
    diag_seg(&mut p, w, h, 0, hi - 1, wi - 1, hi / 2, t);
    p
}

fn draw_pl_left_hollow(w: u32, h: u32) -> (p: Vec<u8>)
    requires
        w <= MAX_CELL,
        h <= MAX_CELL,
    ensures
        is_canvas(p@, w as int, h as int),
        forall|x: int, y: int|
            in_canvas(w as int, h as int, x, y) ==> #[trigger] alpha_at(p@, w as int, x, y) == paint(
                chevron_hit(w - 1, 0, h as int, norm_of(h as int), x, y),
                0,
            ),
{
    let mut p = buf(w, h);
    let t: u32 = norm(h);
    let wi: i32 = w as i32;
    let hi: i32 = h as i32;
    diag_seg(&mut p, w, h, wi - 1, 0, 0, hi / 2, t);
    diag_seg(&mut p, w, h, wi - 1, hi - 1, 0, hi / 2, t);
    p
}

// ── entry point ──────────────────────────────────────────────────────────────

/// Code points that are drawn here rather than taken from a font: box
/// drawing, block elements, braille patterns and the four Powerline arrows.
pub open spec fn is_box_char(cp: u32) -> bool {
    0x2500 <= cp <= 0x259F || 0x2800 <= cp <= 0x28FF || 0xE0B0 <= cp <= 0xE0B3
}

/// Alpha of pixel `(x, y)` of the glyph drawn for `cp` in a `w` by `h` cell.
pub open spec fn glyph_alpha(cp: u32, w: int, h: int, x: int, y: int) -> int {
    if 0x2500 <= cp <= 0x257F {
        paint(box_hit(cp, w, h, x, y), 0) as int
    } else if 0x2580 <= cp <= 0x259F {
        block_alpha(cp, w, h, x, y) as int
    } else if 0x2800 <= cp <= 0x28FF {
        braille_upto((cp - 0x2800) as u32, w, h, 8, x, y)
    } else if cp == 0xE0B0 {
        paint(x < w - taper(w, h, y), 0) as int
    } else if cp == 0xE0B2 {
        paint(x >= taper(w, h, y), 0) as int
    } else if cp == 0xE0B1 {
        paint(chevron_hit(0, w - 1, h, norm_of(h), x, y), 0) as int
    } else {
        paint(chevron_hit(w - 1, 0, h, norm_of(h), x, y), 0) as int
    }
}

/// Rasterise a synthetic character into a `cell_w` by `cell_h` RGBA bitmap,
/// or return `None` for any other character.
pub fn render_box_char(ch: char, cell_w: u32, cell_h: u32) -> (r: Option<Vec<u8>>)
    requires
        cell_w <= MAX_CELL,
        cell_h <= MAX_CELL,
    ensures
        r is Some <==> is_box_char(ch as u32),
        r matches Some(p) ==> {
            &&& is_canvas(p@, cell_w as int, cell_h as int)
            &&& forall|x: int, y: int|
                in_canvas(cell_w as int, cell_h as int, x, y) ==> #[trigger] alpha_at(
                    p@,
                    cell_w as int,
                    x,
                    y,
                ) == glyph_alpha(ch as u32, cell_w as int, cell_h as int, x, y)
        },
{
    let cp: u32 = ch as u32;
    if !(0x2500 <= cp && cp <= 0x259F || 0x2800 <= cp && cp <= 0x28FF || 0xE0B0 <= cp && cp
        <= 0xE0B3) {
        return None;
    }
    if cell_w == 0 || cell_h == 0 {
        return Some(buf(cell_w, cell_h));
    }
    match cp {
        0x2500..=0x257F => Some(draw_box(cp, cell_w, cell_h)),
        0x2580..=0x259F => Some(draw_block(cp, cell_w, cell_h)),
        0x2800..=0x28FF => Some(draw_braille(cp, cell_w, cell_h)),
        0xE0B0 => Some(draw_pl_right_solid(cell_w, cell_h)),
        0xE0B2 => Some(draw_pl_left_solid(cell_w, cell_h)),
        0xE0B1 => Some(draw_pl_right_hollow(cell_w, cell_h)),
        _ => Some(draw_pl_left_hollow(cell_w, cell_h)),
    }
}

} // verus!

//! Cell-grid rectangles, animated rectangles and the tiling layouts.

use vstd::prelude::*;

verus! {

/// A rectangle on the cell grid.
#[derive(Clone, Copy, Debug, PartialEq, Eq, Structural)]
pub struct CellRect {
    pub x: u16,
    pub y: u16,
    pub width: u16,
    pub height: u16,
}

/// Width and height that `ratatui::layout::Rect::new` keeps of the ones it
/// is given.
pub uninterp spec fn clipped_size(width: u16, height: u16) -> (u16, u16);

/// The grid rectangle with the given origin and the size that the terminal
/// library allows for it.
pub open spec fn make_rect(x: u16, y: u16, width: u16, height: u16) -> CellRect {
    CellRect { x, y, width: clipped_size(width, height).0, height: clipped_size(width, height).1 }
}

/// `ratatui::layout::Rect::new`. The origin is kept. A size of at most
/// 65535 cells is kept too; a larger one is scaled down to at most that
/// many cells, keeping its aspect ratio, and neither side grows by that.
#[verifier::external_body]
pub(crate) fn cell_rect(x: u16, y: u16, width: u16, height: u16) -> (r: CellRect)
    ensures
        r.x == x,
        r.y == y,
        (r.width, r.height) == clipped_size(width, height),
        r.width <= width,
        r.height <= height,
        r.width as int * r.height as int <= 0xFFFF,
        width as int * height as int <= 0xFFFF ==> r.width == width && r.height == height,
{
    let r = ratatui::layout::Rect::new(x, y, width, height);
    CellRect { x: r.x, y: r.y, width: r.width, height: r.height }
}

impl CellRect {
    /// The rectangle inset by one cell on every side. One that is narrower
    /// or lower than two cells has no inside: the result is all zero.
    pub open spec fn inset1(self) -> CellRect {
        if self.width < 2 || self.height < 2 {
            CellRect { x: 0, y: 0, width: 0, height: 0 }
        } else {
            CellRect {
                x: if self.x == 0xFFFF { self.x } else { (self.x + 1) as u16 },
                y: if self.y == 0xFFFF { self.y } else { (self.y + 1) as u16 },
                width: (self.width - 2) as u16,
                height: (self.height - 2) as u16,
            }
        }
    }

    /// `ratatui::layout::Rect::inner` with a margin of one cell: the origin
    /// moves in by one (saturating), each side shrinks by two; a rectangle
    /// with a side shorter than two gives the zero rectangle.
    #[verifier::external_body]
    pub(crate) fn inner1(&self) -> (r: CellRect)
        ensures
            r == self.inset1(),
    {
        let q = ratatui::layout::Rect { x: self.x, y: self.y, width: self.width, height: self.height }
            .inner(&ratatui::layout::Margin { horizontal: 1, vertical: 1 });
        CellRect { x: q.x, y: q.y, width: q.width, height: q.height }
    }
}

// ── easing ───────────────────────────────────────────────────────────────────

#[derive(Clone, Copy, Debug, PartialEq, Eq, Structural)]
pub enum Easing {
    EaseOutCubic,
    EaseInOut,
    Linear,
}

pub open spec fn cube(d: int) -> int {
    d * d * d
}

/// Eased progress after `el` of `d` milliseconds, as a numerator over
/// `cube(d)`. With `t = el / d`: `1 - (1 - t)^3`, `t^2 (3 - 2t)` and `t`.
pub open spec fn ease_num(e: Easing, el: int, d: int) -> int {
    match e {
        Easing::EaseOutCubic => cube(d) - cube(d - el),
        Easing::EaseInOut => el * el * (3 * d - 2 * el),
        Easing::Linear => el * d * d,
    }
}

/// The value `num / den` of the way from `a` to `b`, rounded down.
pub open spec fn lerp(a: int, b: int, num: int, den: int) -> int {
    if b >= a {
        a + (b - a) * num / den
    } else {
        a - ((a - b) * num + den - 1) / den
    }
}

proof fn lemma_ease_range(e: Easing, el: int, d: int)
    requires
        0 <= el <= d,
        0 < d,
    ensures
        0 <= ease_num(e, el, d) <= cube(d),
        0 < cube(d),
{
    assert(0 < d * d * d) by (nonlinear_arith)
        requires
            0 < d,
    ;
    match e {
        Easing::EaseOutCubic => {
            let u = d - el;
            assert(0 <= u * u * u <= d * d * d) by (nonlinear_arith)
                requires
                    0 <= u <= d,
            ;
        },
        Easing::EaseInOut => {
            assert(d * d * d - el * el * (3 * d - 2 * el) == (d - el) * (d - el) * (d + 2 * el))
                by (nonlinear_arith);
            assert(0 <= (d - el) * (d - el) * (d + 2 * el)) by (nonlinear_arith)
                requires
                    0 <= el <= d,
            ;
            assert(0 <= el * el * (3 * d - 2 * el)) by (nonlinear_arith)
                requires
                    0 <= el <= d,
            ;
        },
        Easing::Linear => {
            assert(0 <= el * d * d <= d * d * d) by (nonlinear_arith)
                requires
                    0 <= el <= d,
            ;
        },
    }
}

proof fn lemma_lerp_range(a: int, b: int, num: int, den: int)
    requires
        0 <= num <= den,
        0 < den,
    ensures
        a <= b ==> a <= lerp(a, b, num, den) <= b,
        b <= a ==> b <= lerp(a, b, num, den) <= a,
{
    if b >= a {
        let k = b - a;
        assert(0 <= k * num <= k * den) by (nonlinear_arith)
            requires
                0 <= k,
                0 <= num <= den,
        ;
        vstd::arithmetic::div_mod::lemma_div_pos_is_pos(k * num, den);
        vstd::arithmetic::div_mod::lemma_div_is_ordered(k * num, k * den, den);
        vstd::arithmetic::div_mod::lemma_div_multiples_vanish(k, den);
        assert(k * den == den * k) by (nonlinear_arith);
    } else {
        let k = a - b;
        assert(0 <= k * num <= k * den) by (nonlinear_arith)
            requires
                0 <= k,
                0 <= num <= den,
        ;
        vstd::arithmetic::div_mod::lemma_div_pos_is_pos(k * num + den - 1, den);
        vstd::arithmetic::div_mod::lemma_div_is_ordered(k * num + den - 1, k * den + den - 1, den);
        vstd::arithmetic::div_mod::lemma_fundamental_div_mod_converse(
            k * den + den - 1,
            den,
            k,
            den - 1,
        );
        assert(den * k == k * den) by (nonlinear_arith);
    }
}

fn lerp_u16(a: u16, b: u16, num: u128, den: u128) -> (v: u16)
    requires
        0 <= num <= den,
        0 < den <= 0x1_0000_0000_0000_0000_0000_0000,
    ensures
        v == lerp(a as int, b as int, num as int, den as int),
{
    proof {
        lemma_lerp_range(a as int, b as int, num as int, den as int);
    }
    if b >= a {
        let k: u128 = (b - a) as u128;
        assert(0 <= k * num <= 0xFFFF * 0x1_0000_0000_0000_0000_0000_0000) by (nonlinear_arith)
            requires
                0 <= k <= 0xFFFF,
                0 <= num <= 0x1_0000_0000_0000_0000_0000_0000,
        ;
        (a as u128 + k * num / den) as u16
    } else {
        let k: u128 = (a - b) as u128;
        assert(0 <= k * num <= 0xFFFF * 0x1_0000_0000_0000_0000_0000_0000) by (nonlinear_arith)
            requires
                0 <= k <= 0xFFFF,
                0 <= num <= 0x1_0000_0000_0000_0000_0000_0000,
        ;
        (a as u128 - (k * num + den - 1) / den) as u16
    }
}

// ── animated rectangle ───────────────────────────────────────────────────────

/// A rectangle on its way from `src` to `dst`, started at `start_ms` and
/// taking `dur_ms` milliseconds.
#[derive(Clone, Copy, Debug)]
pub struct AnimRect {
    pub src: CellRect,
    pub dst: CellRect,
    pub start_ms: u64,
    pub dur_ms: u32,
    pub ease: Easing,
}

pub open spec fn at_least_1(v: u16) -> u16 {
    if v < 1 {
        1
    } else {
        v
    }
}

impl AnimRect {
    /// Milliseconds run at time `now_ms`.
    pub open spec fn elapsed(self, now_ms: u64) -> int {
        if now_ms >= self.start_ms {
            now_ms - self.start_ms
        } else {
            0
        }
    }

    /// The animation has run its time.
    pub open spec fn done_at(self, now_ms: u64) -> bool {
        self.dur_ms == 0 || self.elapsed(now_ms) >= self.dur_ms
    }

    /// One coordinate at time `now_ms`.
    pub open spec fn coord_at(self, a: u16, b: u16, now_ms: u64) -> u16 {
        let d = self.dur_ms as int;
        let el = if self.elapsed(now_ms) < d {
            self.elapsed(now_ms)
        } else {
            d
        };
        lerp(a as int, b as int, ease_num(self.ease, el, d), cube(d)) as u16
    }

    /// The rectangle at time `now_ms`: `dst` once the time has run, else the
    /// eased interpolation of each coordinate, rounded down. It is never
    /// narrower or lower than one cell.
    pub open spec fn current_at(self, now_ms: u64) -> CellRect {
        if self.dur_ms == 0 {
            make_rect(
                self.dst.x,
                self.dst.y,
                at_least_1(self.dst.width),
                at_least_1(self.dst.height),
            )
        } else {
            make_rect(
                self.coord_at(self.src.x, self.dst.x, now_ms),
                self.coord_at(self.src.y, self.dst.y, now_ms),
                at_least_1(self.coord_at(self.src.width, self.dst.width, now_ms)),
                at_least_1(self.coord_at(self.src.height, self.dst.height, now_ms)),
            )
        }
    }

    /// A rectangle at rest.
    pub fn still(r: CellRect) -> (a: AnimRect)
        ensures
            a == (AnimRect { src: r, dst: r, start_ms: 0, dur_ms: 0, ease: Easing::EaseOutCubic }),
    {
        AnimRect { src: r, dst: r, start_ms: 0, dur_ms: 0, ease: Easing::EaseOutCubic }
    }

    pub fn is_done(&self, now_ms: u64) -> (done: bool)
        ensures
            done == self.done_at(now_ms),
    {
        self.dur_ms == 0 || (now_ms >= self.start_ms && now_ms - self.start_ms
            >= self.dur_ms as u64)
    }

    pub fn current(&self, now_ms: u64) -> (r: CellRect)
        ensures
            r == self.current_at(now_ms),
    {
        if self.dur_ms == 0 {
            let w: u16 = if self.dst.width < 1 { 1 } else { self.dst.width };
            let h: u16 = if self.dst.height < 1 { 1 } else { self.dst.height };
            return cell_rect(self.dst.x, self.dst.y, w, h);
        }
        let d: u128 = self.dur_ms as u128;
        let run: u64 = if now_ms >= self.start_ms { now_ms - self.start_ms } else { 0 };
        let el: u128 = if run < self.dur_ms as u64 { run as u128 } else { d };
        proof {
            lemma_ease_range(self.ease, el as int, d as int);
            assert(d * d <= 0x1_0000_0000 * 0x1_0000_0000 && d * d * d <= 0x1_0000_0000
                * 0x1_0000_0000 * 0x1_0000_0000) by (nonlinear_arith)
                requires
                    0 <= d <= 0x1_0000_0000,
            ;
            assert(0 <= el * el <= d * d && 0 <= el * d <= d * d) by (nonlinear_arith)
                requires
                    0 <= el <= d,
            ;
        }
        let den: u128 = d * d * d;
        let num: u128 = match self.ease {
            Easing::EaseOutCubic => {
                let u: u128 = d - el;
                assert(0 <= u * u <= d * d && 0 <= u * u * u <= d * d * d) by (nonlinear_arith)
                    requires
                        0 <= u <= d,
                ;
                den - u * u * u
            },
            Easing::EaseInOut => {
                assert(0 <= el * el * (3 * d - 2 * el)) by (nonlinear_arith)
                    requires
                        0 <= el <= d,
                ;
                el * el * (3 * d - 2 * el)
            },
            Easing::Linear => {
                assert(el * d * d == el * (d * d)) by (nonlinear_arith);
                el * d * d
            },
        };
        let x: u16 = lerp_u16(self.src.x, self.dst.x, num, den);
        let y: u16 = lerp_u16(self.src.y, self.dst.y, num, den);
        let w: u16 = lerp_u16(self.src.width, self.dst.width, num, den);
        let h: u16 = lerp_u16(self.src.height, self.dst.height, num, den);
        cell_rect(x, y, if w < 1 { 1 } else { w }, if h < 1 { 1 } else { h })
    }
}

// ── layouts ──────────────────────────────────────────────────────────────────

pub open spec fn sat_sub(a: int, b: int) -> int {
    if a >= b {
        a - b
    } else {
        0
    }
}

/// The layout arithmetic for `n` panes with `gap` cells between them stays
/// within the grid's 16-bit coordinates.
pub open spec fn layout_room(area: CellRect, n: int, gap: u16) -> bool {
    &&& 1 <= n <= 0xFFFF
    &&& area.x + area.width + 4 + n * gap <= 0xFFFF
    &&& area.y + area.height + 4 + n * gap <= 0xFFFF
}

/// Binary space partition: the first pane takes half of the area, the rest
/// share the other half in the same way, split the other way round.
/// `vert` says that the area is split into a left and a right half.
pub open spec fn bsp_rects(area: CellRect, n: nat, gap: u16, vert: bool) -> Seq<CellRect>
    decreases n,
{
    if n == 0 {
        Seq::empty()
    } else if n == 1 {
        seq![area]
    } else if vert {
        let lw = sat_sub(area.width as int, gap as int) / 2;
        let rw = sat_sub(area.width as int, lw + gap);
        seq![make_rect(area.x, area.y, lw as u16, area.height)] + bsp_rects(
            make_rect((area.x + lw + gap) as u16, area.y, rw as u16, area.height),
            (n - 1) as nat,
            gap,
            false,
        )
    } else {
        let th = sat_sub(area.height as int, gap as int) / 2;
        let bh = sat_sub(area.height as int, th + gap);
        seq![make_rect(area.x, area.y, area.width, th as u16)] + bsp_rects(
            make_rect(area.x, (area.y + th + gap) as u16, area.width, bh as u16),
            (n - 1) as nat,
            gap,
            true,
        )
    }
}

fn bsp_inner(area: CellRect, n: usize, gap: u16, vert: bool, out: &mut Vec<CellRect>)
    requires
        n == 0 || layout_room(area, n as int, gap),
    ensures
        final(out)@ == old(out)@ + bsp_rects(area, n as nat, gap, vert),
    decreases n,
{
    if n == 0 {
        assert(out@ =~= old(out)@ + bsp_rects(area, 0, gap, vert));
        return ;
    }
    if n == 1 {
        out.push(area);
        assert(out@ =~= old(out)@ + bsp_rects(area, 1, gap, vert));
        return ;
    }
    assert(n * gap == (n - 1) * gap + gap && (n - 1) * gap >= 0) by (nonlinear_arith)
        requires
            n >= 1,
            gap >= 0,
    ;
    if vert {
        let lw: u16 = (if area.width >= gap { area.width - gap } else { 0 }) / 2;
        let rw: u16 = if area.width >= lw + gap { area.width - (lw + gap) } else { 0 };
        let left = cell_rect(area.x, area.y, lw, area.height);
        let right = cell_rect(area.x + lw + gap, area.y, rw, area.height);
        out.push(left);
        bsp_inner(right, n - 1, gap, false, out);
        assert(out@ =~= old(out)@ + bsp_rects(area, n as nat, gap, vert));
    } else {
        let th: u16 = (if area.height >= gap { area.height - gap } else { 0 }) / 2;
        let bh: u16 = if area.height >= th + gap { area.height - (th + gap) } else { 0 };
        let top = cell_rect(area.x, area.y, area.width, th);
        let bot = cell_rect(area.x, area.y + th + gap, area.width, bh);
        out.push(top);
        bsp_inner(bot, n - 1, gap, true, out);
        assert(out@ =~= old(out)@ + bsp_rects(area, n as nat, gap, vert));
    }
}

/// Binary space partition of `area` among `n` panes, splitting first along
/// the longer side.
pub fn bsp_split(area: CellRect, n: usize, gap: u16) -> (out: Vec<CellRect>)
    requires
        n == 0 || layout_room(area, n as int, gap),
    ensures
        out@ == bsp_rects(area, n as nat, gap, area.width >= area.height),
{
    let mut out: Vec<CellRect> = Vec::new();
    bsp_inner(area, n, gap, area.width >= area.height, &mut out);
    assert(out@ =~= bsp_rects(area, n as nat, gap, area.width >= area.height));
    out
}

/// Extent of the main pane: `pct` percent of `len`, at least `least`.
pub open spec fn main_extent(len: int, pct: int, least: int) -> int {
    if len * pct / 100 < least {
        least
    } else {
        len * pct / 100
    }
}

/// Extent of each of `rest` stacked panes that share `len` cells with `gap`
/// cells between neighbours.
pub open spec fn stack_extent(len: int, rest: int, gap: int) -> int {
    sat_sub(len, gap * sat_sub(rest, 1)) / rest
}

/// Columns: the main pane on the left, the others stacked on its right.
pub open spec fn col_rects(area: CellRect, n: nat, pct: u8, gap: u16) -> Seq<CellRect> {
    if n == 1 {
        seq![area]
    } else {
        let mw = main_extent(area.width as int, pct as int, 4);
        let sw = sat_sub(area.width as int, mw + gap);
        let each = stack_extent(area.height as int, n - 1, gap as int);
        Seq::new(
            n,
            |i: int|
                if i == 0 {
                    make_rect(area.x, area.y, mw as u16, area.height)
                } else {
                    make_rect(
                        (area.x + mw + gap) as u16,
                        (area.y + (i - 1) * (each + gap)) as u16,
                        sw as u16,
                        each as u16,
                    )
                },
        )
    }
}

/// Rows: the main pane on top, the others side by side below it.
pub open spec fn row_rects(area: CellRect, n: nat, pct: u8, gap: u16) -> Seq<CellRect> {
    if n == 1 {
        seq![area]
    } else {
        let mh = main_extent(area.height as int, pct as int, 3);
        let sh = sat_sub(area.height as int, mh + gap);
        let each = stack_extent(area.width as int, n - 1, gap as int);
        Seq::new(
            n,
            |i: int|
                if i == 0 {
                    make_rect(area.x, area.y, area.width, mh as u16)
                } else {
                    make_rect(
                        (area.x + (i - 1) * (each + gap)) as u16,
                        (area.y + mh + gap) as u16,
                        each as u16,
                        sh as u16,
                    )
                },
        )
    }
}

proof fn lemma_stack_room(len: int, rest: int, gap: int, i: int)
    requires
        0 <= len,
        1 <= rest,
        0 <= gap,
        0 <= i < rest,
    ensures
        0 <= stack_extent(len, rest, gap) <= len,
        0 <= gap * sat_sub(rest, 1) <= (rest + 1) * gap,
        0 <= i * (stack_extent(len, rest, gap) + gap) <= len + (rest + 1) * gap,
{
    let each = stack_extent(len, rest, gap);
    let avail = sat_sub(len, gap * sat_sub(rest, 1));
    assert(0 <= gap * sat_sub(rest, 1) <= (rest + 1) * gap) by (nonlinear_arith)
        requires
            0 <= gap,
            0 <= sat_sub(rest, 1) <= rest,
    ;
    vstd::arithmetic::div_mod::lemma_fundamental_div_mod(avail, rest);
    vstd::arithmetic::div_mod::lemma_div_pos_is_pos(avail, rest);
    vstd::arithmetic::div_mod::lemma_mod_pos_bound(avail, rest);
    assert(i * each <= rest * each) by (nonlinear_arith)
        requires
            0 <= i < rest,
            0 <= each,
    ;
    assert(0 <= i * gap <= (rest + 1) * gap) by (nonlinear_arith)
        requires
            0 <= i < rest,
            0 <= gap,
    ;
    assert(i * (each + gap) == i * each + i * gap) by (nonlinear_arith);
    assert(0 <= i * each) by (nonlinear_arith)
        requires
            0 <= i,
            0 <= each,
    ;
    assert(each <= len) by (nonlinear_arith)
        requires
            rest * each <= len,
            1 <= rest,
            0 <= each,
    ;
}

fn main_size(len: u16, pct: u8, least: u16) -> (m: u16)
    requires
        pct <= 100,
        len + least <= 0xFFFF,
    ensures
        m == main_extent(len as int, pct as int, least as int),
        m <= len || m == least,
{
    assert(len * pct <= len * 100) by (nonlinear_arith)
        requires
            0 <= len,
            0 <= pct <= 100,
    ;
    let m: u32 = len as u32 * pct as u32 / 100;
    if m < least as u32 {
        least
    } else {
        m as u16
    }
}

pub fn col_split(area: CellRect, n: usize, pct: u8, gap: u16) -> (out: Vec<CellRect>)
    requires
        layout_room(area, n as int, gap),
        pct <= 100,
    ensures
        out@ == col_rects(area, n as nat, pct, gap),
{
    if n == 1 {
        let mut out: Vec<CellRect> = Vec::new();
        out.push(area);
        assert(out@ =~= col_rects(area, 1, pct, gap));
        return out;
    }
    assert(n * gap >= gap) by (nonlinear_arith)
        requires
            n >= 1,
            gap >= 0,
    ;
    let mw: u16 = main_size(area.width, pct, 4);
    let sw: u16 = if area.width >= mw + gap { area.width - (mw + gap) } else { 0 };
    let rest: u16 = (n - 1) as u16;
    proof {
        lemma_stack_room(area.height as int, rest as int, gap as int, 0);
    }
    let spare: u16 = gap * (if rest >= 1 { rest - 1 } else { 0 });
    let each_h: u16 = (if area.height >= spare { area.height - spare } else { 0 }) / rest;
    let mut out: Vec<CellRect> = Vec::new();
    out.push(cell_rect(area.x, area.y, mw, area.height));
    let mut i: u16 = 0;
    while i < rest
        invariant
            layout_room(area, n as int, gap),
            n >= 2,
            rest == n - 1,
            i <= rest,
            mw == main_extent(area.width as int, pct as int, 4),
            mw <= area.width || mw == 4,
            sw == sat_sub(area.width as int, mw + gap),
            each_h == stack_extent(area.height as int, rest as int, gap as int),
            n * gap >= gap,
            out.len() == i + 1,
            forall|k: int| 0 <= k < out.len() ==> #[trigger] out[k] == col_rects(area, n as nat, pct, gap)[k],
        decreases rest - i,
    {
        proof {
            lemma_stack_room(area.height as int, rest as int, gap as int, i as int);
        }
        out.push(cell_rect(area.x + mw + gap, area.y + i * (each_h + gap), sw, each_h));
        i = i + 1;
    }
    assert(out@ =~= col_rects(area, n as nat, pct, gap));
    out
}

pub fn row_split(area: CellRect, n: usize, pct: u8, gap: u16) -> (out: Vec<CellRect>)
    requires
        layout_room(area, n as int, gap),
        pct <= 100,
    ensures
        out@ == row_rects(area, n as nat, pct, gap),
{
    if n == 1 {
        let mut out: Vec<CellRect> = Vec::new();
        out.push(area);
        assert(out@ =~= row_rects(area, 1, pct, gap));
        return out;
    }
    assert(n * gap >= gap) by (nonlinear_arith)
        requires
            n >= 1,
            gap >= 0,
    ;
    let mh: u16 = main_size(area.height, pct, 3);
    let sh: u16 = if area.height >= mh + gap { area.height - (mh + gap) } else { 0 };
    let rest: u16 = (n - 1) as u16;
    proof {
        lemma_stack_room(area.width as int, rest as int, gap as int, 0);
    }
    let spare: u16 = gap * (if rest >= 1 { rest - 1 } else { 0 });
    let each_w: u16 = (if area.width >= spare { area.width - spare } else { 0 }) / rest;
    let mut out: Vec<CellRect> = Vec::new();
    out.push(cell_rect(area.x, area.y, area.width, mh));
    let mut i: u16 = 0;
    while i < rest
        invariant
            layout_room(area, n as int, gap),
            n >= 2,
            rest == n - 1,
            i <= rest,
            mh == main_extent(area.height as int, pct as int, 3),
            mh <= area.height || mh == 3,
            sh == sat_sub(area.height as int, mh + gap),
            each_w == stack_extent(area.width as int, rest as int, gap as int),
            n * gap >= gap,
            out.len() == i + 1,
            forall|k: int| 0 <= k < out.len() ==> #[trigger] out[k] == row_rects(area, n as nat, pct, gap)[k],
        decreases rest - i,
    {
        proof {
            lemma_stack_room(area.width as int, rest as int, gap as int, i as int);
        }
        out.push(cell_rect(area.x + i * (each_w + gap), area.y + mh + gap, each_w, sh));
        i = i + 1;
    }
    assert(out@ =~= row_rects(area, n as nat, pct, gap));
    out
}

/// Each layout gives every pane a rectangle.
pub proof fn lemma_layout_len(area: CellRect, n: nat, gap: u16, pct: u8)
    ensures
        bsp_rects(area, n, gap, true).len() == n,
        bsp_rects(area, n, gap, false).len() == n,
        n >= 1 ==> col_rects(area, n, pct, gap).len() == n,
        n >= 1 ==> row_rects(area, n, pct, gap).len() == n,
    decreases n,
{
    if n >= 2 {
        let lw = sat_sub(area.width as int, gap as int) / 2;
        let rw = sat_sub(area.width as int, lw + gap);
        lemma_layout_len(
            make_rect((area.x + lw + gap) as u16, area.y, rw as u16, area.height),
            (n - 1) as nat,
            gap,
            pct,
        );
        let th = sat_sub(area.height as int, gap as int) / 2;
        let bh = sat_sub(area.height as int, th + gap);
        lemma_layout_len(
            make_rect(area.x, (area.y + th + gap) as u16, area.width, bh as u16),
            (n - 1) as nat,
            gap,
            pct,
        );
    }
}

} // verus!

//! Pixel-space drawing model: colours, styles, rectangles, a constraint
//! layout and the draw commands that the renderer consumes.

use vstd::prelude::*;

verus! {

// ── Color ────────────────────────────────────────────────────────────────────

/// An RGBA colour, one byte per channel.
#[derive(Clone, Copy, Debug, PartialEq, Eq, Structural)]
pub struct Color(pub u8, pub u8, pub u8, pub u8);

impl Color {
    pub fn black() -> (c: Color)
        ensures
            c == Color(0, 0, 0, 255),
    {
        Color(0, 0, 0, 255)
    }

    pub fn white() -> (c: Color)
        ensures
            c == Color(255, 255, 255, 255),
    {
        Color(255, 255, 255, 255)
    }

    /// Fully transparent: "no colour set".
    pub fn reset() -> (c: Color)
        ensures
            c == Color(0, 0, 0, 0),
    {
        Color(0, 0, 0, 0)
    }

    pub fn cyan() -> (c: Color)
        ensures
            c == Color(0, 200, 255, 255),
    {
        Color(0, 200, 255, 255)
    }

    pub fn gray() -> (c: Color)
        ensures
            c == Color(128, 128, 128, 255),
    {
        Color(128, 128, 128, 255)
    }

    pub fn dark_gray() -> (c: Color)
        ensures
            c == Color(64, 64, 64, 255),
    {
        Color(64, 64, 64, 255)
    }

    pub fn rgb(r: u8, g: u8, b: u8) -> (c: Color)
        ensures
            c == Color(r, g, b, 255),
    {
        Color(r, g, b, 255)
    }

    pub fn rgba(r: u8, g: u8, b: u8, a: u8) -> (c: Color)
        ensures
            c == Color(r, g, b, a),
    {
        Color(r, g, b, a)
    }
}

impl Default for Color {
    fn default() -> (c: Color)
        ensures
            c == Color(0, 0, 0, 0),
    {
        Color(0, 0, 0, 0)
    }
}

// ── Style ────────────────────────────────────────────────────────────────────

#[derive(Clone, Copy, Debug, PartialEq, Eq, Structural)]
pub struct Style {
    pub fg: Color,
    pub bg: Color,
    pub bold: bool,
    pub italic: bool,
}

impl Default for Style {
    /// White on nothing, upright and regular.
    fn default() -> (s: Style)
        ensures
            s == (Style { fg: Color(255, 255, 255, 255), bg: Color(0, 0, 0, 0), bold: false, italic: false }),
    {
        Style { fg: Color(255, 255, 255, 255), bg: Color(0, 0, 0, 0), bold: false, italic: false }
    }
}

impl Style {
    pub fn fg(self, c: Color) -> (s: Style)
        ensures
            s == (Style { fg: c, ..self }),
    {
        Style { fg: c, bg: self.bg, bold: self.bold, italic: self.italic }
    }

    pub fn bg(self, c: Color) -> (s: Style)
        ensures
            s == (Style { bg: c, ..self }),
    {
        Style { fg: self.fg, bg: c, bold: self.bold, italic: self.italic }
    }

    pub fn bold(self) -> (s: Style)
        ensures
            s == (Style { bold: true, ..self }),
    {
        Style { fg: self.fg, bg: self.bg, bold: true, italic: self.italic }
    }

    pub fn italic(self) -> (s: Style)
        ensures
            s == (Style { italic: true, ..self }),
    {
        Style { fg: self.fg, bg: self.bg, bold: self.bold, italic: true }
    }
}

// ── Rect ─────────────────────────────────────────────────────────────────────

/// A rectangle in pixels: origin and size.
#[derive(Clone, Copy, Debug, PartialEq, Eq, Structural)]
pub struct Rect {
    pub x: u32,
    pub y: u32,
    pub w: u32,
    pub h: u32,
}

impl Default for Rect {
    fn default() -> (r: Rect)
        ensures
            r == (Rect { x: 0, y: 0, w: 0, h: 0 }),
    {
        Rect { x: 0, y: 0, w: 0, h: 0 }
    }
}

impl Rect {
    pub fn new(x: u32, y: u32, w: u32, h: u32) -> (r: Rect)
        ensures
            r == (Rect { x, y, w, h }),
    {
        Rect { x, y, w, h }
    }

    pub fn area(&self) -> (a: u32)
        requires
            self.w * self.h <= u32::MAX,
        ensures
            a == self.w * self.h,
    {
        self.w * self.h
    }

    pub fn is_empty(&self) -> (e: bool)
        ensures
            e == (self.w == 0 || self.h == 0),
    {
        self.w == 0 || self.h == 0
    }

    /// The rectangle inset by `px` on every side; a side that is too short
    /// collapses to zero.
    pub open spec fn inner_spec(self, px: int) -> Rect {
        Rect {
            x: (self.x + px) as u32,
            y: (self.y + px) as u32,
            w: if self.w >= 2 * px { (self.w - 2 * px) as u32 } else { 0 },
            h: if self.h >= 2 * px { (self.h - 2 * px) as u32 } else { 0 },
        }
    }

    pub fn inner(&self, px: u32) -> (r: Rect)
        requires
            px * 2 <= u32::MAX,
            self.x + px <= u32::MAX,
            self.y + px <= u32::MAX,
        ensures
            r == self.inner_spec(px as int),
    {
        let px2: u32 = px * 2;
        Rect {
            x: self.x + px,
            y: self.y + px,
            w: if self.w >= px2 { self.w - px2 } else { 0 },
            h: if self.h >= px2 { self.h - px2 } else { 0 },
        }
    }
}

// ── Layout ───────────────────────────────────────────────────────────────────

#[derive(Clone, Copy, Debug)]
pub enum Direction {
    Horizontal,
    Vertical,
}

/// How much of the split axis one slot asks for.
#[derive(Clone, Copy, Debug)]
pub enum Constraint {
    /// Exactly this many pixels, as far as any are left.
    Fixed(u32),
    /// An equal share of what is left, but at least this much.
    Min(u32),
    /// An equal share of what is left, but at most this much.
    Max(u32),
    /// This percentage of the whole (capped at 100), as far as any is left.
    Percentage(u32),
}

pub open spec fn min_of(a: int, b: int) -> int {
    if a <= b {
        a
    } else {
        b
    }
}

/// What a fixed or percentage slot takes when `remaining` pixels are left;
/// flexible slots take nothing in the first pass.
pub open spec fn first_pass_size(total: int, c: Constraint, remaining: int) -> int {
    match c {
        Constraint::Fixed(v) => min_of(v as int, remaining),
        Constraint::Percentage(p) => min_of(total * min_of(p as int, 100) / 100, remaining),
        _ => 0,
    }
}

/// Pixels left after the first `i` slots took their fixed share.
pub open spec fn remaining_after(total: int, cs: Seq<Constraint>, i: nat) -> int
    decreases i,
{
    if i == 0 || i > cs.len() {
        total
    } else {
        let before = remaining_after(total, cs, (i - 1) as nat);
        before - first_pass_size(total, cs[i - 1], before)
    }
}

pub open spec fn is_flex(c: Constraint) -> bool {
    c is Min || c is Max
}

/// Number of flexible slots among the first `i`.
pub open spec fn flex_count(cs: Seq<Constraint>, i: nat) -> int
    decreases i,
{
    if i == 0 || i > cs.len() {
        0
    } else {
        flex_count(cs, (i - 1) as nat) + if is_flex(cs[i - 1]) {
            1int
        } else {
            0int
        }
    }
}

/// The equal share of each flexible slot.
pub open spec fn flex_share(total: int, cs: Seq<Constraint>) -> int {
    remaining_after(total, cs, cs.len()) / flex_count(cs, cs.len())
}

/// Size given to slot `i`.
pub open spec fn slot_size(total: int, cs: Seq<Constraint>, i: int) -> int {
    match cs[i] {
        Constraint::Min(m) => if flex_share(total, cs) >= m {
            flex_share(total, cs)
        } else {
            m as int
        },
        Constraint::Max(m) => min_of(flex_share(total, cs), m as int),
        c => first_pass_size(total, c, remaining_after(total, cs, i as nat)),
    }
}

/// Sum of the sizes of the first `i` slots: where slot `i` begins.
pub open spec fn slot_offset(total: int, cs: Seq<Constraint>, i: nat) -> int
    decreases i,
{
    if i == 0 || i > cs.len() {
        0
    } else {
        slot_offset(total, cs, (i - 1) as nat) + slot_size(total, cs, i - 1)
    }
}

pub open spec fn axis_len(area: Rect, dir: Direction) -> int {
    match dir {
        Direction::Horizontal => area.w as int,
        Direction::Vertical => area.h as int,
    }
}

pub open spec fn axis_origin(area: Rect, dir: Direction) -> int {
    match dir {
        Direction::Horizontal => area.x as int,
        Direction::Vertical => area.y as int,
    }
}

/// Slot `i` of `area` split along `dir`.
pub open spec fn slot_rect(area: Rect, dir: Direction, cs: Seq<Constraint>, i: int) -> Rect {
    let total = axis_len(area, dir);
    let off = slot_offset(total, cs, i as nat);
    let sz = slot_size(total, cs, i);
    match dir {
        Direction::Horizontal => Rect { x: (area.x + off) as u32, y: area.y, w: sz as u32, h: area.h },
        Direction::Vertical => Rect { x: area.x, y: (area.y + off) as u32, w: area.w, h: sz as u32 },
    }
}

proof fn lemma_remaining_range(total: int, cs: Seq<Constraint>, i: nat)
    requires
        0 <= total,
        i <= cs.len(),
    ensures
        0 <= remaining_after(total, cs, i) <= total,
    decreases i,
{
    if i > 0 {
        lemma_remaining_range(total, cs, (i - 1) as nat);
        let before = remaining_after(total, cs, (i - 1) as nat);
        match cs[i - 1] {
            Constraint::Percentage(p) => {
                let q = min_of(p as int, 100);
                assert(0 <= total * q) by (nonlinear_arith)
                    requires
                        0 <= total,
                        0 <= q,
                ;
                vstd::arithmetic::div_mod::lemma_div_pos_is_pos(total * q, 100);
            },
            _ => {},
        }
    }
}

proof fn lemma_flex_count_range(cs: Seq<Constraint>, i: nat)
    requires
        i <= cs.len(),
    ensures
        0 <= flex_count(cs, i) <= i,
    decreases i,
{
    if i > 0 {
        lemma_flex_count_range(cs, (i - 1) as nat);
    }
}

pub struct Layout;

impl Layout {
    /// Sizes of the slots that `constraints` ask for out of `total` pixels.
    /// Fixed and percentage slots are served first, in order, each capped by
    /// what is left; the rest is shared equally among the flexible slots,
    /// each then held to its own bound.
    pub fn resolve(total: u32, constraints: &[Constraint]) -> (sizes: Vec<u32>)
        ensures
            sizes.len() == constraints.len(),
            forall|i: int|
                0 <= i < sizes.len() ==> #[trigger] sizes[i] as int == slot_size(
                    total as int,
                    constraints@,
                    i,
                ),
    {
        let n: usize = constraints.len();
        let ghost cs = constraints@;
        let mut sizes: Vec<u32> = Vec::new();
        let mut remaining: u32 = total;
        let mut flex: usize = 0;
        let mut i: usize = 0;
        while i < n
            invariant
                n == constraints.len(),
                cs == constraints@,
                i <= n,
                sizes.len() == i,
                remaining == remaining_after(total as int, cs, i as nat),
                flex == flex_count(cs, i as nat),
                flex <= i,
                forall|j: int|
                    0 <= j < i ==> #[trigger] sizes[j] as int == first_pass_size(
                        total as int,
                        cs[j],
                        remaining_after(total as int, cs, j as nat),
                    ),
            decreases n - i,
        {
            let v: u32 = match constraints[i] {
                Constraint::Fixed(v) => if v < remaining { v } else { remaining },
                Constraint::Percentage(p) => {
                    let q: u64 = if p < 100 { p as u64 } else { 100 };
                    assert(0 <= total * q <= 100 * 0xFFFF_FFFF) by (nonlinear_arith)
                        requires
                            0 <= total <= 0xFFFF_FFFF,
                            0 <= q <= 100,
                    ;
                    let want: u64 = total as u64 * q / 100;
                    if want < remaining as u64 { want as u32 } else { remaining }
                },
                _ => {
                    flex = flex + 1;
                    0
                },
            };
            sizes.push(v);
            remaining = remaining - v;
            i = i + 1;
        }
        if flex > 0 {
            let share: u32 = (remaining as u64 / (flex as u64)) as u32;
            let mut j: usize = 0;
            while j < n
                invariant
                    n == constraints.len(),
                    cs == constraints@,
                    j <= n,
                    sizes.len() == n,
                    flex > 0,
                    share == flex_share(total as int, cs),
                    forall|k: int|
                        0 <= k < j ==> #[trigger] sizes[k] as int == slot_size(total as int, cs, k),
                    forall|k: int|
                        j <= k < n ==> #[trigger] sizes[k] as int == first_pass_size(
                            total as int,
                            cs[k],
                            remaining_after(total as int, cs, k as nat),
                        ),
                decreases n - j,
            {
                match constraints[j] {
                    Constraint::Min(m) => {
                        sizes.set(j, if share > m { share } else { m });
                    },
                    Constraint::Max(m) => {
                        sizes.set(j, if share < m { share } else { m });
                    },
                    _ => {},
                }
                j = j + 1;
            }
        } else {
            proof {
                assert forall|k: int| 0 <= k < n implies !is_flex(cs[k]) by {
                    lemma_no_flex(cs, n as nat, k);
                }
            }
        }
        sizes
    }

    /// Split `area` along `dir` into one rectangle per constraint, laid end
    /// to end from the area's origin.
    pub fn split(area: Rect, dir: Direction, constraints: &[Constraint]) -> (out: Vec<Rect>)
        requires
            axis_origin(area, dir) + slot_offset(
                axis_len(area, dir),
                constraints@,
                constraints@.len(),
            ) <= u32::MAX,
        ensures
            out.len() == constraints.len(),
            forall|i: int|
                0 <= i < out.len() ==> #[trigger] out[i] == slot_rect(area, dir, constraints@, i),
    {
        let total: u32 = match dir {
            Direction::Horizontal => area.w,
            Direction::Vertical => area.h,
        };
        let sizes = Layout::resolve(total, constraints);
        let n: usize = sizes.len();
        let ghost cs = constraints@;
        let mut out: Vec<Rect> = Vec::new();
        let mut offset: u32 = 0;
        let mut i: usize = 0;
        while i < n
            invariant
                n == sizes.len(),
                n == cs.len(),
                cs == constraints@,
                total == axis_len(area, dir),
                i <= n,
                out.len() == i,
                offset == slot_offset(total as int, cs, i as nat),
                axis_origin(area, dir) + slot_offset(total as int, cs, cs.len()) <= u32::MAX,
                forall|k: int|
                    0 <= k < n ==> #[trigger] sizes[k] as int == slot_size(total as int, cs, k),
                forall|k: int| 0 <= k < i ==> #[trigger] out[k] == slot_rect(area, dir, cs, k),
            decreases n - i,
        {
            let sz: u32 = sizes[i];
            proof {
                lemma_offset_monotone(total as int, cs, (i + 1) as nat, cs.len());
            }
            let r = match dir {
                Direction::Horizontal => Rect::new(area.x + offset, area.y, sz, area.h),
                Direction::Vertical => Rect::new(area.x, area.y + offset, area.w, sz),
            };
            out.push(r);
            offset = offset + sz;
            i = i + 1;
        }
        out
    }

    /// `split` for exactly two constraints.
    pub fn split2(area: Rect, dir: Direction, c: &[Constraint; 2]) -> (out: [Rect; 2])
        requires
            axis_origin(area, dir) + slot_offset(axis_len(area, dir), c@, 2) <= u32::MAX,
        ensures
            out[0] == slot_rect(area, dir, c@, 0),
            out[1] == slot_rect(area, dir, c@, 1),
    {
        let v = Layout::split(area, dir, c.as_slice());
        [v[0], v[1]]
    }
}

proof fn lemma_no_flex(cs: Seq<Constraint>, n: nat, k: int)
    requires
        n <= cs.len(),
        flex_count(cs, n) == 0,
        0 <= k < n,
    ensures
        !is_flex(cs[k]),
    decreases n,
{
    lemma_flex_count_range(cs, (n - 1) as nat);
    if k < n - 1 {
        lemma_no_flex(cs, (n - 1) as nat, k);
    }
}

proof fn lemma_slot_size_nonneg(total: int, cs: Seq<Constraint>, i: int)
    requires
        0 <= total,
        0 <= i < cs.len(),
    ensures
        0 <= slot_size(total, cs, i),
{
    lemma_remaining_range(total, cs, i as nat);
    lemma_remaining_range(total, cs, cs.len());
    lemma_flex_count_range(cs, cs.len());
    match cs[i] {
        Constraint::Percentage(p) => {
            let q = min_of(p as int, 100);
            assert(0 <= total * q) by (nonlinear_arith)
                requires
                    0 <= total,
                    0 <= q,
            ;
            vstd::arithmetic::div_mod::lemma_div_pos_is_pos(total * q, 100);
        },
        Constraint::Max(m) => {
            lemma_flex_positive(cs, cs.len(), i);
            vstd::arithmetic::div_mod::lemma_div_pos_is_pos(
                remaining_after(total, cs, cs.len()),
                flex_count(cs, cs.len()),
            );
        },
        _ => {},
    }
}

proof fn lemma_flex_positive(cs: Seq<Constraint>, n: nat, k: int)
    requires
        n <= cs.len(),
        0 <= k < n,
        is_flex(cs[k]),
    ensures
        flex_count(cs, n) > 0,
    decreases n,
{
    lemma_flex_count_range(cs, (n - 1) as nat);
    if k < n - 1 {
        lemma_flex_positive(cs, (n - 1) as nat, k);
    }
}

proof fn lemma_offset_monotone(total: int, cs: Seq<Constraint>, i: nat, j: nat)
    requires
        0 <= total,
        i <= j <= cs.len(),
    ensures
        0 <= slot_offset(total, cs, i) <= slot_offset(total, cs, j),
    decreases j,
{
    if i < j {
        lemma_offset_monotone(total, cs, i, (j - 1) as nat);
        lemma_slot_size_nonneg(total, cs, j - 1);
    } else if i > 0 {
        lemma_offset_monotone(total, cs, (i - 1) as nat, (i - 1) as nat);
        lemma_slot_size_nonneg(total, cs, i - 1);
    }
}

// ── DrawCmd ──────────────────────────────────────────────────────────────────

/// One drawing instruction, in pixels. Commands carry no state from one to
/// the next.
#[derive(Debug, Clone)]
pub enum DrawCmd {
    FillRect { rect: Rect, color: Color },
    StrokeRect { rect: Rect, color: Color, thickness: u32 },
    Text { x: u32, y: u32, text: String, style: Style, max_width: Option<u32> },
    HLine { x: u32, y: u32, w: u32, color: Color },
    VLine { x: u32, y: u32, h: u32, color: Color },
}

/// What a `DrawCmd` says, with its text as a character sequence.
pub enum DrawCmdView {
    FillRect { rect: Rect, color: Color },
    StrokeRect { rect: Rect, color: Color, thickness: u32 },
    Text { x: u32, y: u32, text: Seq<char>, style: Style, max_width: Option<u32> },
    HLine { x: u32, y: u32, w: u32, color: Color },
    VLine { x: u32, y: u32, h: u32, color: Color },
}

impl View for DrawCmd {
    type V = DrawCmdView;

    open spec fn view(&self) -> DrawCmdView {
        match *self {
            DrawCmd::FillRect { rect, color } => DrawCmdView::FillRect { rect, color },
            DrawCmd::StrokeRect { rect, color, thickness } => DrawCmdView::StrokeRect {
                rect,
                color,
                thickness,
            },
            DrawCmd::Text { x, y, text, style, max_width } => DrawCmdView::Text {
                x,
                y,
                text: text@,
                style,
                max_width,
            },
            DrawCmd::HLine { x, y, w, color } => DrawCmdView::HLine { x, y, w, color },
            DrawCmd::VLine { x, y, h, color } => DrawCmdView::VLine { x, y, h, color },
        }
    }
}

/// The commands of a list, each by its view.
pub open spec fn cmd_views(cmds: Seq<DrawCmd>) -> Seq<DrawCmdView> {
    Seq::new(cmds.len(), |i: int| cmds[i]@)
}

pub proof fn lemma_cmd_views_push(cmds: Seq<DrawCmd>, c: DrawCmd)
    ensures
        cmd_views(cmds.push(c)) == cmd_views(cmds).push(c@),
{
    assert(cmd_views(cmds.push(c)) =~= cmd_views(cmds).push(c@));
}

// ── DrawContext ──────────────────────────────────────────────────────────────

/// Commands for a filled rectangle: none if it is empty.
pub open spec fn fill_cmds(rect: Rect, color: Color) -> Seq<DrawCmdView> {
    if rect.w == 0 || rect.h == 0 {
        Seq::empty()
    } else {
        seq![DrawCmdView::FillRect { rect, color }]
    }
}

/// Commands for a rectangle outline: none if the rectangle is empty.
pub open spec fn stroke_cmds(rect: Rect, color: Color, thickness: u32) -> Seq<DrawCmdView> {
    if rect.w == 0 || rect.h == 0 {
        Seq::empty()
    } else {
        seq![DrawCmdView::StrokeRect { rect, color, thickness }]
    }
}

/// Commands for a text run: none if the text is empty.
pub open spec fn text_cmds(x: u32, y: u32, s: Seq<char>, style: Style, max_w: Option<u32>) -> Seq<
    DrawCmdView,
> {
    if s.len() == 0 {
        Seq::empty()
    } else {
        seq![DrawCmdView::Text { x, y, text: s, style, max_width: max_w }]
    }
}

/// Collects the draw commands of one frame for a given area and cell size.
pub struct DrawContext {
    pub cmds: Vec<DrawCmd>,
    pub area: Rect,
    pub cell_w: u32,
    pub cell_h: u32,
}

/// A widget draws itself into a rectangle of a draw context.
pub trait Widget: Sized {
    /// The commands that the widget appends when it is rendered into `area`
    /// with cells of the given size.
    spec fn draws(&self, area: Rect, cell_w: u32, cell_h: u32) -> Seq<DrawCmdView>;

    /// Rendering into `area` stays within 32-bit pixel arithmetic.
    spec fn fits(&self, area: Rect, cell_w: u32, cell_h: u32) -> bool;

    fn render(self, area: Rect, ctx: &mut DrawContext)
        requires
            self.fits(area, old(ctx).cell_w, old(ctx).cell_h),
        ensures
            final(ctx).same_frame(old(ctx)),
            final(ctx).drawn() == old(ctx).drawn() + self.draws(
                area,
                old(ctx).cell_w,
                old(ctx).cell_h,
            ),
    ;
}

impl DrawContext {
    /// The commands collected so far.
    pub open spec fn drawn(&self) -> Seq<DrawCmdView> {
        cmd_views(self.cmds@)
    }

    /// Same area and cell size as `other`.
    pub open spec fn same_frame(&self, other: &DrawContext) -> bool {
        self.area == other.area && self.cell_w == other.cell_w && self.cell_h == other.cell_h
    }

    pub fn area(&self) -> (r: Rect)
        ensures
            r == self.area,
    {
        self.area
    }

    pub fn cell_size(&self) -> (s: (u32, u32))
        ensures
            s == (self.cell_w, self.cell_h),
    {
        (self.cell_w, self.cell_h)
    }

    /// Let `widget` draw itself into `rect`.
    pub fn render_widget<W: Widget>(&mut self, widget: W, rect: Rect)
        requires
            widget.fits(rect, old(self).cell_w, old(self).cell_h),
        ensures
            final(self).same_frame(old(self)),
            final(self).drawn() == old(self).drawn() + widget.draws(
                rect,
                old(self).cell_w,
                old(self).cell_h,
            ),
    {
        widget.render(rect, self);
    }

    /// Append a filled rectangle, unless it is empty.
    pub fn fill_rect(&mut self, rect: Rect, color: Color)
        ensures
            final(self).same_frame(old(self)),
            final(self).drawn() == old(self).drawn() + fill_cmds(rect, color),
    {
        if !rect.is_empty() {
            proof {
                lemma_cmd_views_push(self.cmds@, DrawCmd::FillRect { rect, color });
            }
            self.cmds.push(DrawCmd::FillRect { rect, color });
        }
        assert(self.drawn() =~= old(self).drawn() + fill_cmds(rect, color));
    }

    /// Append a rectangle outline, unless the rectangle is empty.
    pub fn stroke_rect(&mut self, rect: Rect, color: Color, thickness: u32)
        ensures
            final(self).same_frame(old(self)),
            final(self).drawn() == old(self).drawn() + stroke_cmds(rect, color, thickness),
    {
        if !rect.is_empty() {
            proof {
                lemma_cmd_views_push(self.cmds@, DrawCmd::StrokeRect { rect, color, thickness });
            }
            self.cmds.push(DrawCmd::StrokeRect { rect, color, thickness });
        }
        assert(self.drawn() =~= old(self).drawn() + stroke_cmds(rect, color, thickness));
    }

    /// Append a text run, unless the text is empty.
    pub fn text(&mut self, x: u32, y: u32, s: &str, style: Style, max_w: Option<u32>)
        ensures
            final(self).same_frame(old(self)),
            final(self).drawn() == old(self).drawn() + text_cmds(x, y, s@, style, max_w),
    {
        if !s.is_empty() {
            let cmd = DrawCmd::Text { x, y, text: s.to_owned(), style, max_width: max_w };
            proof {
                lemma_cmd_views_push(self.cmds@, cmd);
            }
            self.cmds.push(cmd);
        }
        assert(self.drawn() =~= old(self).drawn() + text_cmds(x, y, s@, style, max_w));
    }

    /// Append a one pixel high horizontal line.
    pub fn hline(&mut self, x: u32, y: u32, w: u32, color: Color)
        ensures
            final(self).same_frame(old(self)),
            final(self).drawn() == old(self).drawn().push(DrawCmdView::HLine { x, y, w, color }),
    {
        proof {
            lemma_cmd_views_push(self.cmds@, DrawCmd::HLine { x, y, w, color });
        }
        self.cmds.push(DrawCmd::HLine { x, y, w, color });
    }

    /// Append a one pixel wide vertical line.
    pub fn vline(&mut self, x: u32, y: u32, h: u32, color: Color)
        ensures
            final(self).same_frame(old(self)),
            final(self).drawn() == old(self).drawn().push(DrawCmdView::VLine { x, y, h, color }),
    {
        proof {
            lemma_cmd_views_push(self.cmds@, DrawCmd::VLine { x, y, h, color });
        }
        self.cmds.push(DrawCmd::VLine { x, y, h, color });
    }
}

} // verus!

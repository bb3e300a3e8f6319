//! Widgets of the pixel UI: a bordered block, a paragraph, a selectable
//! list and a one-line text input.

use crate::pixelui::{
    fill_cmds, stroke_cmds, text_cmds, Color, DrawCmdView, DrawContext, Rect, Style, Widget,
};
use crate::text::{chars_of, push_char, string_of};
use vstd::prelude::*;

verus! {

/// Width reckoned for one character of widget text: half a cell, at least
/// six pixels.
pub open spec fn glyph_w(cell_w: u32) -> u32 {
    if cell_w / 2 < 6 {
        6
    } else {
        cell_w / 2
    }
}

fn glyph_width(cell_w: u32) -> (w: u32)
    ensures
        w == glyph_w(cell_w),
{
    if cell_w / 2 < 6 {
        6
    } else {
        cell_w / 2
    }
}

pub open spec fn sub_or_zero(a: int, b: int) -> int {
    if a >= b {
        a - b
    } else {
        0
    }
}

// ── Block ────────────────────────────────────────────────────────────────────

/// A bordered box with an optional title on its top edge.
#[derive(Clone, Debug)]
pub struct Block {
    pub title: Option<String>,
    pub border_color: Color,
    pub bg: Color,
    pub title_style: Style,
    pub padding: u32,
}

impl Default for Block {
    fn default() -> (b: Block)
        ensures
            b.is_plain(),
    {
        Block::new()
    }
}

impl Block {
    /// A block as `new` makes it: no title, a grey border, no background, a
    /// bold white title style and one pixel of padding.
    pub open spec fn is_plain(&self) -> bool {
        &&& self.title is None
        &&& self.border_color == Color(128, 128, 128, 255)
        &&& self.bg == Color(0, 0, 0, 0)
        &&& self.title_style == (Style {
            fg: Color(255, 255, 255, 255),
            bg: Color(0, 0, 0, 0),
            bold: true,
            italic: false,
        })
        &&& self.padding == 1
    }

    pub open spec fn title_view(&self) -> Option<Seq<char>> {
        match self.title {
            Some(t) => Some(t@),
            None => None,
        }
    }

    /// Same as `other` but for the title.
    pub open spec fn same_box(&self, other: &Block) -> bool {
        &&& self.border_color == other.border_color
        &&& self.bg == other.bg
        &&& self.title_style == other.title_style
        &&& self.padding == other.padding
    }

    pub fn new() -> (b: Block)
        ensures
            b.is_plain(),
    {
        Block {
            title: None,
            border_color: Color::gray(),
            bg: Color::reset(),
            title_style: Style::default().fg(Color::white()).bold(),
            padding: 1,
        }
    }

    pub fn title(self, t: &str) -> (b: Block)
        ensures
            b.title_view() == Some(t@),
            b.same_box(&self),
    {
        Block {
            title: Some(t.to_owned()),
            border_color: self.border_color,
            bg: self.bg,
            title_style: self.title_style,
            padding: self.padding,
        }
    }

    pub fn border_color(self, c: Color) -> (b: Block)
        ensures
            b == (Block { border_color: c, ..self }),
    {
        Block {
            title: self.title,
            border_color: c,
            bg: self.bg,
            title_style: self.title_style,
            padding: self.padding,
        }
    }

    pub fn bg(self, c: Color) -> (b: Block)
        ensures
            b == (Block { bg: c, ..self }),
    {
        Block {
            title: self.title,
            border_color: self.border_color,
            bg: c,
            title_style: self.title_style,
            padding: self.padding,
        }
    }

    pub fn title_style(self, s: Style) -> (b: Block)
        ensures
            b == (Block { title_style: s, ..self }),
    {
        Block {
            title: self.title,
            border_color: self.border_color,
            bg: self.bg,
            title_style: s,
            padding: self.padding,
        }
    }

    /// The inside of the block is within 32-bit arithmetic.
    pub open spec fn inner_fits(&self, area: Rect) -> bool {
        &&& (1 + self.padding) * 2 <= u32::MAX
        &&& area.x + 1 + self.padding <= u32::MAX
        &&& area.y + 1 + self.padding <= u32::MAX
    }

    /// What the block leaves free of `area`: the area less the border and
    /// the padding on every side.
    pub open spec fn inner_spec(&self, area: Rect) -> Rect {
        area.inner_spec(1 + self.padding)
    }

    pub fn inner(&self, area: Rect) -> (r: Rect)
        requires
            self.inner_fits(area),
        ensures
            r == self.inner_spec(area),
    {
        area.inner(1 + self.padding)
    }

    /// The commands of the title: a strip of background behind it, then the
    /// text, two pixels in from the left edge.
    pub open spec fn title_cmds(&self, area: Rect, cell_w: u32) -> Seq<DrawCmdView> {
        match self.title {
            Some(t) => fill_cmds(
                Rect {
                    x: (area.x + 1) as u32,
                    y: area.y,
                    w: ((t@.len() + 2) * glyph_w(cell_w)) as u32,
                    h: 1,
                },
                self.bg,
            ) + text_cmds(
                (area.x + 2) as u32,
                area.y,
                t@,
                self.title_style,
                Some(sub_or_zero(area.w as int, 4) as u32),
            ),
            None => Seq::empty(),
        }
    }
}

impl Widget for Block {
    /// Nothing for an empty area; else the background, if the block has
    /// one, the border, and the title.
    open spec fn draws(&self, area: Rect, cell_w: u32, cell_h: u32) -> Seq<DrawCmdView> {
        if area.w == 0 || area.h == 0 {
            Seq::empty()
        } else {
            (if self.bg != Color(0, 0, 0, 0) {
                fill_cmds(area, self.bg)
            } else {
                Seq::empty()
            }) + stroke_cmds(area, self.border_color, 1) + self.title_cmds(area, cell_w)
        }
    }

    open spec fn fits(&self, area: Rect, cell_w: u32, cell_h: u32) -> bool {
        area.w == 0 || area.h == 0 || match self.title {
            Some(t) => area.x + 2 <= u32::MAX && (t@.len() + 2) * glyph_w(cell_w) <= u32::MAX,
            None => true,
        }
    }

    fn render(self, area: Rect, ctx: &mut DrawContext) {
        let ghost want = self.draws(area, ctx.cell_w, ctx.cell_h);
        if area.is_empty() {
            assert(ctx.drawn() =~= old(ctx).drawn() + want);
            return ;
        }
        if self.bg != Color::reset() {
            ctx.fill_rect(area, self.bg);
        }
        ctx.stroke_rect(area, self.border_color, 1);
        match &self.title {
            Some(title) => {
                let tx: u32 = area.x + 2;
                let ty: u32 = area.y;
                let gw: u32 = glyph_width(ctx.cell_w);
                let n: usize = title.as_str().unicode_len();
                assert(n + 2 <= (n + 2) * gw) by (nonlinear_arith)
                    requires
                        gw >= 1,
                        n >= 0,
                ;
                let tw: u32 = (n as u32 + 2) * gw;
                ctx.fill_rect(Rect::new(tx - 1, ty, tw, 1), self.bg);
                ctx.text(
                    tx,
                    ty,
                    title.as_str(),
                    self.title_style,
                    Some(if area.w >= 4 { area.w - 4 } else { 0 }),
                );
            },
            None => {},
        }
        assert(ctx.drawn() =~= old(ctx).drawn() + want);
    }
}

// ── Paragraph ────────────────────────────────────────────────────────────────

/// Lines of styled text, optionally inside a block.
#[derive(Clone, Debug)]
pub struct Paragraph {
    pub lines: Vec<(String, Style)>,
    pub block: Option<Block>,
    pub wrap: bool,
}

/// The commands of the lines from `from` on, the first at height `y`, one
/// line height apart, as long as a whole line fits above `limit`.
pub open spec fn line_cmds(
    lines: Seq<(String, Style)>,
    x: u32,
    y: int,
    limit: int,
    line_h: u32,
    max_w: Option<u32>,
    from: int,
) -> Seq<DrawCmdView>
    decreases lines.len() - from,
{
    if from < 0 || from >= lines.len() || y + line_h > limit {
        Seq::empty()
    } else {
        text_cmds(x, y as u32, lines[from].0@, lines[from].1, max_w) + line_cmds(
            lines,
            x,
            y + line_h,
            limit,
            line_h,
            max_w,
            from + 1,
        )
    }
}

/// The commands of an optional block around a widget.
pub open spec fn frame_cmds(block: Option<Block>, area: Rect, cell_w: u32, cell_h: u32) -> Seq<
    DrawCmdView,
> {
    match block {
        Some(b) => b.draws(area, cell_w, cell_h),
        None => Seq::empty(),
    }
}

/// The area that an optional block leaves to the widget inside it.
pub open spec fn frame_inner(block: Option<Block>, area: Rect) -> Rect {
    match block {
        Some(b) => b.inner_spec(area),
        None => area,
    }
}

/// The optional block around a widget can be drawn within 32-bit
/// arithmetic, and so can the area inside it.
pub open spec fn frame_fits(block: Option<Block>, area: Rect, cell_w: u32, cell_h: u32) -> bool {
    &&& block matches Some(b) ==> b.fits(area, cell_w, cell_h) && b.inner_fits(area)
    &&& frame_inner(block, area).x + frame_inner(block, area).w <= u32::MAX
    &&& frame_inner(block, area).y + frame_inner(block, area).h <= u32::MAX
}

/// Draw the optional block and return the area inside it.
fn render_frame(block: Option<Block>, area: Rect, ctx: &mut DrawContext) -> (inner: Rect)
    requires
        frame_fits(block, area, old(ctx).cell_w, old(ctx).cell_h),
    ensures
        final(ctx).same_frame(old(ctx)),
        final(ctx).drawn() == old(ctx).drawn() + frame_cmds(
            block,
            area,
            old(ctx).cell_w,
            old(ctx).cell_h,
        ),
        inner == frame_inner(block, area),
{
    match block {
        Some(b) => {
            let inner = b.inner(area);
            b.render(area, ctx);
            inner
        },
        None => {
            assert(ctx.drawn() =~= old(ctx).drawn() + Seq::<DrawCmdView>::empty());
            area
        },
    }
}

impl Paragraph {
    pub fn new(text: &str) -> (p: Paragraph)
        ensures
            p.lines@.len() == 1,
            p.lines@[0].0@ == text@,
            p.lines@[0].1 == (Style {
                fg: Color(255, 255, 255, 255),
                bg: Color(0, 0, 0, 0),
                bold: false,
                italic: false,
            }),
            p.block is None,
            p.wrap,
    {
        let mut lines: Vec<(String, Style)> = Vec::new();
        lines.push((text.to_owned(), Style::default()));
        Paragraph { lines, block: None, wrap: true }
    }

    pub fn styled(lines: Vec<(String, Style)>) -> (p: Paragraph)
        ensures
            p.lines == lines,
            p.block is None,
            p.wrap,
    {
        Paragraph { lines, block: None, wrap: true }
    }

    pub fn block(self, b: Block) -> (p: Paragraph)
        ensures
            p == (Paragraph { block: Some(b), ..self }),
    {
        Paragraph { lines: self.lines, block: Some(b), wrap: self.wrap }
    }

    pub fn no_wrap(self) -> (p: Paragraph)
        ensures
            p == (Paragraph { wrap: false, ..self }),
    {
        Paragraph { lines: self.lines, block: self.block, wrap: false }
    }
}

impl Widget for Paragraph {
    /// The block, if any; then, inside it, the lines from the top down as
    /// far as whole lines fit, each limited to the inner width if the
    /// paragraph wraps.
    open spec fn draws(&self, area: Rect, cell_w: u32, cell_h: u32) -> Seq<DrawCmdView> {
        let inner = frame_inner(self.block, area);
        frame_cmds(self.block, area, cell_w, cell_h) + (if inner.w == 0 || inner.h == 0 {
            Seq::empty()
        } else {
            line_cmds(
                self.lines@,
                inner.x,
                inner.y as int,
                inner.y + inner.h,
                cell_h,
                if self.wrap {
                    Some(inner.w)
                } else {
                    None
                },
                0,
            )
        })
    }

    open spec fn fits(&self, area: Rect, cell_w: u32, cell_h: u32) -> bool {
        frame_fits(self.block, area, cell_w, cell_h)
    }

    fn render(self, area: Rect, ctx: &mut DrawContext) {
        let ghost want = self.draws(area, ctx.cell_w, ctx.cell_h);
        let ghost lines = self.lines@;
        let wrap: bool = self.wrap;
        let inner = render_frame(self.block, area, ctx);
        let ghost framed = ctx.drawn();
        if inner.is_empty() {
            assert(ctx.drawn() =~= old(ctx).drawn() + want);
            return ;
        }
        let line_h: u32 = ctx.cell_h;
        let limit: u32 = inner.y + inner.h;
        let max_w: Option<u32> = if wrap { Some(inner.w) } else { None };
        let mut y: u32 = inner.y;
        let mut i: usize = 0;
        let ghost all = line_cmds(lines, inner.x, inner.y as int, limit as int, line_h, max_w, 0);
        assert(framed + (Seq::<DrawCmdView>::empty() + all) =~= framed + all);
        let ghost mut done = Seq::<DrawCmdView>::empty();
        while i < self.lines.len() && y as u64 + line_h as u64 <= limit as u64
            invariant
                i <= self.lines.len(),
                lines == self.lines@,
                y <= limit,
                line_h == ctx.cell_h,
                ctx.same_frame(old(ctx)),
                ctx.drawn() == framed + done,
                all == done + line_cmds(lines, inner.x, y as int, limit as int, line_h, max_w, i as int),
            decreases self.lines.len() - i,
        {
            let ghost rest = line_cmds(lines, inner.x, y + line_h, limit as int, line_h, max_w, i + 1);
            let ghost this = text_cmds(inner.x, y, lines[i as int].0@, lines[i as int].1, max_w);
            ctx.text(inner.x, y, self.lines[i].0.as_str(), self.lines[i].1, max_w);
            proof {
                assert((framed + done) + this =~= framed + (done + this));
                assert(done + (this + rest) =~= (done + this) + rest);
                done = done + this;
            }
            y = y + line_h;
            i = i + 1;
        }
        proof {
            assert(line_cmds(lines, inner.x, y as int, limit as int, line_h, max_w, i as int)
                =~= Seq::<DrawCmdView>::empty());
            assert(done + Seq::<DrawCmdView>::empty() =~= done);
            assert(old(ctx).drawn() + (frame_cmds(self.block, area, ctx.cell_w, ctx.cell_h) + all)
                =~= (old(ctx).drawn() + frame_cmds(self.block, area, ctx.cell_w, ctx.cell_h))
                + all);
        }
    }
}

// ── List ─────────────────────────────────────────────────────────────────────

/// Selection and scroll position of a list.
#[derive(Debug, Default)]
pub struct ListState {
    pub selected: Option<usize>,
    pub offset: usize,
}

impl ListState {
    pub fn select(&mut self, i: Option<usize>)
        ensures
            final(self).selected == i,
            final(self).offset == old(self).offset,
    {
        self.selected = i;
    }

    pub fn selected(&self) -> (i: Option<usize>)
        ensures
            i == self.selected,
    {
        self.selected
    }

    /// Select the next of `len` items, the first if none is selected; the
    /// selection stops at the last item.
    pub fn next(&mut self, len: usize)
        ensures
            final(self).offset == old(self).offset,
            final(self).selected == Some(
                match old(self).selected {
                    None => 0usize,
                    Some(i) => if i + 1 <= sub_or_zero(len as int, 1) {
                        (i + 1) as usize
                    } else {
                        sub_or_zero(len as int, 1) as usize
                    },
                },
            ),
    {
        let last: usize = if len >= 1 { len - 1 } else { 0 };
        self.selected = Some(
            match self.selected {
                None => 0,
                Some(i) => if i < last { i + 1 } else { last },
            },
        );
    }

    /// Select the previous item, the first if none is selected; the
    /// selection stops at the first item.
    pub fn prev(&mut self)
        ensures
            final(self).offset == old(self).offset,
            final(self).selected == Some(
                match old(self).selected {
                    None => 0usize,
                    Some(i) => sub_or_zero(i as int, 1) as usize,
                },
            ),
    {
        self.selected = Some(
            match self.selected {
                None => 0,
                Some(i) => if i >= 1 { i - 1 } else { 0 },
            },
        );
    }
}

/// A scrolling list of lines, one of which can be selected.
pub struct List<'a> {
    pub items: Vec<(String, Style)>,
    pub state: &'a mut ListState,
    pub block: Option<Block>,
    pub highlight_style: Style,
    pub highlight_sym: &'static str,
}

/// Style of the selected line of a list unless another is set: bold black
/// on cyan.
pub open spec fn default_highlight() -> Style {
    Style { fg: Color(0, 0, 0, 255), bg: Color(0, 200, 255, 255), bold: true, italic: false }
}

/// Number of whole lines that fit into a list's inner area.
pub open spec fn list_visible(inner: Rect, cell_h: u32) -> int {
    inner.h as int / cell_h as int
}

/// The scroll offset after the selection was brought into view.
pub open spec fn list_offset(selected: Option<usize>, offset: usize, visible: int) -> int {
    match selected {
        None => offset as int,
        Some(sel) => {
            let up = if sel < offset {
                sel as int
            } else {
                offset as int
            };
            if sel >= up + visible {
                sub_or_zero(sel as int, visible - 1)
            } else {
                up
            }
        },
    }
}

/// The commands of one line of a list at height `y`: the highlight bar if
/// the line is selected, the marker column, then the text in bold.
pub open spec fn item_cmds(
    item: (String, Style),
    is_selected: bool,
    highlight: Style,
    sym: Seq<char>,
    inner: Rect,
    y: u32,
    line_h: u32,
    sym_w: u32,
) -> Seq<DrawCmdView> {
    let bg = if is_selected {
        highlight.bg
    } else {
        Color(0, 0, 0, 0)
    };
    let fg = if is_selected {
        highlight.fg
    } else {
        item.1.fg
    };
    (if bg != Color(0, 0, 0, 0) {
        fill_cmds(Rect { x: inner.x, y, w: inner.w, h: line_h }, bg)
    } else {
        Seq::empty()
    }) + text_cmds(
        inner.x,
        y,
        if is_selected {
            sym
        } else {
            "  "@
        },
        Style { fg, bg, bold: false, italic: false },
        Some(sym_w),
    ) + text_cmds(
        (inner.x + sym_w) as u32,
        y,
        item.0@,
        Style { fg, bg, bold: true, italic: false },
        Some(sub_or_zero(inner.w as int, sym_w as int) as u32),
    )
}

/// The commands of the visible lines from the `vi`-th on.
pub open spec fn rows_cmds(
    items: Seq<(String, Style)>,
    selected: Option<usize>,
    highlight: Style,
    sym: Seq<char>,
    inner: Rect,
    line_h: u32,
    sym_w: u32,
    offset: int,
    visible: int,
    vi: int,
) -> Seq<DrawCmdView>
    decreases visible - vi,
{
    if vi < 0 || vi >= visible || offset + vi >= items.len() {
        Seq::empty()
    } else {
        item_cmds(
            items[offset + vi],
            selected == Some((offset + vi) as usize),
            highlight,
            sym,
            inner,
            (inner.y + vi * line_h) as u32,
            line_h,
            sym_w,
        ) + rows_cmds(items, selected, highlight, sym, inner, line_h, sym_w, offset, visible, vi + 1)
    }
}

/// The scroll bar of a list with more items than fit: a grey bar two pixels
/// wide at the right edge, as high as the visible share of the list, at
/// least two pixels, and as far down as the offset's share.
pub open spec fn scrollbar_cmds(len: int, inner: Rect, offset: int, visible: int) -> Seq<
    DrawCmdView,
> {
    if len > visible {
        fill_cmds(
            Rect {
                x: (inner.x + sub_or_zero(inner.w as int, 2)) as u32,
                y: (inner.y + offset * inner.h / len) as u32,
                w: 2,
                h: (if visible * inner.h / len < 2 {
                    2
                } else {
                    visible * inner.h / len
                }) as u32,
            },
            Color(128, 128, 128, 255),
        )
    } else {
        Seq::empty()
    }
}

impl<'a> List<'a> {
    /// A list of unstyled lines.
    pub fn new(items: Vec<String>, state: &'a mut ListState) -> (l: List<'a>)
        ensures
            l.items@.len() == items@.len(),
            forall|i: int|
                0 <= i < items@.len() ==> (#[trigger] l.items@[i]).0@ == items@[i]@ && l.items@[i].1
                    == (Style {
                    fg: Color(255, 255, 255, 255),
                    bg: Color(0, 0, 0, 0),
                    bold: false,
                    italic: false,
                }),
            l.block is None,
            l.highlight_style == default_highlight(),
            l.highlight_sym@ == "\u{25b6} "@,
            *l.state == *old(state),
            *final(l.state) == *final(state),
    {
        let mut styled: Vec<(String, Style)> = Vec::new();
        let mut i: usize = 0;
        while i < items.len()
            invariant
                i <= items.len(),
                styled@.len() == i,
                forall|j: int|
                    0 <= j < i ==> (#[trigger] styled@[j]).0@ == items@[j]@ && styled@[j].1 == (Style {
                        fg: Color(255, 255, 255, 255),
                        bg: Color(0, 0, 0, 0),
                        bold: false,
                        italic: false,
                    }),
            decreases items.len() - i,
        {
            styled.push((items[i].clone(), Style::default()));
            i = i + 1;
        }
        List {
            items: styled,
            state,
            block: None,
            highlight_style: Style::default().fg(Color::black()).bg(Color::cyan()).bold(),
            highlight_sym: "\u{25b6} ",
        }
    }

    /// A list of styled lines.
    pub fn styled(items: Vec<(String, Style)>, state: &'a mut ListState) -> (l: List<'a>)
        ensures
            l.items == items,
            l.block is None,
            l.highlight_style == default_highlight(),
            l.highlight_sym@ == "\u{25b6} "@,
            *l.state == *old(state),
            *final(l.state) == *final(state),
    {
        List {
            items,
            state,
            block: None,
            highlight_style: Style::default().fg(Color::black()).bg(Color::cyan()).bold(),
            highlight_sym: "\u{25b6} ",
        }
    }

    pub fn block(self, b: Block) -> (l: List<'a>)
        ensures
            l.items == self.items,
            l.block == Some(b),
            l.highlight_style == self.highlight_style,
            l.highlight_sym == self.highlight_sym,
            *l.state == *old(self.state),
            *final(l.state) == *final(self.state),
    {
        List {
            items: self.items,
            state: self.state,
            block: Some(b),
            highlight_style: self.highlight_style,
            highlight_sym: self.highlight_sym,
        }
    }

    pub fn highlight_style(self, s: Style) -> (l: List<'a>)
        ensures
            l.items == self.items,
            l.block == self.block,
            l.highlight_style == s,
            l.highlight_sym == self.highlight_sym,
            *l.state == *old(self.state),
            *final(l.state) == *final(self.state),
    {
        List {
            items: self.items,
            state: self.state,
            block: self.block,
            highlight_style: s,
            highlight_sym: self.highlight_sym,
        }
    }

    /// Width of the marker column.
    pub open spec fn sym_w(&self, cell_w: u32) -> int {
        self.highlight_sym@.len() * glyph_w(cell_w)
    }
}

impl<'a> Widget for List<'a> {
    /// The block, if any; then, inside it, the lines that are in view once
    /// the selection was scrolled into view, and the scroll bar.
    open spec fn draws(&self, area: Rect, cell_w: u32, cell_h: u32) -> Seq<DrawCmdView> {
        let inner = frame_inner(self.block, area);
        let visible = list_visible(inner, cell_h);
        let offset = list_offset(self.state.selected, self.state.offset, visible);
        frame_cmds(self.block, area, cell_w, cell_h) + (if inner.w == 0 || inner.h == 0 {
            Seq::empty()
        } else {
            rows_cmds(
                self.items@,
                self.state.selected,
                self.highlight_style,
                self.highlight_sym@,
                inner,
                cell_h,
                self.sym_w(cell_w) as u32,
                offset,
                visible,
                0,
            ) + scrollbar_cmds(self.items@.len() as int, inner, offset, visible)
        })
    }

    open spec fn fits(&self, area: Rect, cell_w: u32, cell_h: u32) -> bool {
        let inner = frame_inner(self.block, area);
        let visible = list_visible(inner, cell_h);
        let offset = list_offset(self.state.selected, self.state.offset, visible);
        &&& frame_fits(self.block, area, cell_w, cell_h)
        &&& inner.w == 0 || inner.h == 0 || {
            &&& cell_h > 0
            &&& self.state.selected is Some ==> visible > 0
            &&& self.state.selected matches Some(sel) ==> sel + visible <= usize::MAX
            &&& inner.x + self.sym_w(cell_w) <= u32::MAX
            &&& self.items@.len() > visible ==> inner.y + offset * inner.h / (
            self.items@.len() as int) <= u32::MAX
        }
    }

    fn render(self, area: Rect, ctx: &mut DrawContext)
        ensures
            final(self.state).selected == old(self.state).selected,
            final(self.state).offset == (if frame_inner(self.block, area).w == 0 || frame_inner(
                self.block,
                area,
            ).h == 0 {
                old(self.state).offset as int
            } else {
                list_offset(
                    old(self.state).selected,
                    old(self.state).offset,
                    list_visible(frame_inner(self.block, area), old(ctx).cell_h),
                )
            }),
    {
        let ghost want = self.draws(area, ctx.cell_w, ctx.cell_h);
        let ghost head = frame_cmds(self.block, area, ctx.cell_w, ctx.cell_h);
        let inner = render_frame(self.block, area, ctx);
        let ghost framed = ctx.drawn();
        if inner.is_empty() {
            assert(ctx.drawn() =~= old(ctx).drawn() + want);
            return ;
        }
        let line_h: u32 = ctx.cell_h;
        let visible: usize = (inner.h / line_h) as usize;
        match self.state.selected {
            Some(sel) => {
                if sel < self.state.offset {
                    self.state.offset = sel;
                }
                if sel >= self.state.offset + visible {
                    self.state.offset = if sel >= visible - 1 { sel - (visible - 1) } else { 0 };
                }
            },
            None => {},
        }
        let offset: usize = self.state.offset;
        let selected = self.state.selected;
        let gw: u32 = glyph_width(ctx.cell_w);
        let sym_w: u32 = (self.highlight_sym.unicode_len() as u64 * gw as u64) as u32;
        let ghost rows = rows_cmds(
            self.items@,
            selected,
            self.highlight_style,
            self.highlight_sym@,
            inner,
            line_h,
            sym_w,
            offset as int,
            visible as int,
            0,
        );
        let ghost bar = scrollbar_cmds(self.items@.len() as int, inner, offset as int, visible as int);
        render_rows(
            ctx,
            &self.items,
            selected,
            self.highlight_style,
            self.highlight_sym,
            inner,
            sym_w,
            offset,
            visible,
        );
        render_scrollbar(ctx, self.items.len(), inner, offset, visible);
        proof {
            assert((framed + rows) + bar =~= framed + (rows + bar));
            assert((old(ctx).drawn() + head) + (rows + bar) =~= old(ctx).drawn() + (head + (rows
                + bar)));
        }
    }
}

fn render_item(
    ctx: &mut DrawContext,
    item: &(String, Style),
    is_sel: bool,
    highlight: Style,
    sym: &str,
    inner: Rect,
    y: u32,
    sym_w: u32,
)
    requires
        inner.x + sym_w <= u32::MAX,
    ensures
        final(ctx).same_frame(old(ctx)),
        final(ctx).drawn() == old(ctx).drawn() + item_cmds(
            *item,
            is_sel,
            highlight,
            sym@,
            inner,
            y,
            old(ctx).cell_h,
            sym_w,
        ),
{
    let line_h: u32 = ctx.cell_h;
    let bg = if is_sel { highlight.bg } else { Color::reset() };
    let fg = if is_sel { highlight.fg } else { item.1.fg };
    if bg != Color::reset() {
        ctx.fill_rect(Rect::new(inner.x, y, inner.w, line_h), bg);
    }
    ctx.text(inner.x, y, if is_sel { sym } else { "  " }, Style::default().fg(fg).bg(bg), Some(sym_w));
    ctx.text(
        inner.x + sym_w,
        y,
        item.0.as_str(),
        Style::default().fg(fg).bg(bg).bold(),
        Some(if inner.w >= sym_w { inner.w - sym_w } else { 0 }),
    );
    assert(ctx.drawn() =~= old(ctx).drawn() + item_cmds(
        *item,
        is_sel,
        highlight,
        sym@,
        inner,
        y,
        line_h,
        sym_w,
    ));
}

proof fn lemma_row_offset(h: int, line_h: int, vi: int)
    requires
        0 <= h,
        0 < line_h,
        0 <= vi <= h / line_h,
    ensures
        0 <= vi * line_h <= h,
{
    vstd::arithmetic::div_mod::lemma_fundamental_div_mod(h, line_h);
    vstd::arithmetic::div_mod::lemma_mod_pos_bound(h, line_h);
    assert(vi * line_h <= (h / line_h) * line_h) by (nonlinear_arith)
        requires
            vi <= h / line_h,
            line_h >= 0,
    ;
    assert((h / line_h) * line_h == line_h * (h / line_h)) by (nonlinear_arith);
    assert(0 <= vi * line_h) by (nonlinear_arith)
        requires
            vi >= 0,
            line_h >= 0,
    ;
}

fn render_rows(
    ctx: &mut DrawContext,
    items: &Vec<(String, Style)>,
    selected: Option<usize>,
    highlight: Style,
    sym: &str,
    inner: Rect,
    sym_w: u32,
    offset: usize,
    visible: usize,
)
    requires
        old(ctx).cell_h > 0,
        visible == inner.h as int / old(ctx).cell_h as int,
        inner.y + inner.h <= u32::MAX,
        inner.x + sym_w <= u32::MAX,
    ensures
        final(ctx).same_frame(old(ctx)),
        final(ctx).drawn() == old(ctx).drawn() + rows_cmds(
            items@,
            selected,
            highlight,
            sym@,
            inner,
            old(ctx).cell_h,
            sym_w,
            offset as int,
            visible as int,
            0,
        ),
{
    let line_h: u32 = ctx.cell_h;
    let ghost start = ctx.drawn();
    let ghost rows = rows_cmds(
        items@,
        selected,
        highlight,
        sym@,
        inner,
        line_h,
        sym_w,
        offset as int,
        visible as int,
        0,
    );
    let ghost mut done = Seq::<DrawCmdView>::empty();
    assert(done + rows =~= rows);
    assert(start + done =~= start);
    let mut vi: usize = 0;
    while vi < visible && vi < items.len() && offset < items.len() - vi
        invariant
            vi <= visible,
            line_h == ctx.cell_h,
            line_h > 0,
            visible == inner.h as int / line_h as int,
            inner.y + inner.h <= u32::MAX,
            inner.x + sym_w <= u32::MAX,
            ctx.same_frame(old(ctx)),
            ctx.drawn() == start + done,
            rows == done + rows_cmds(
                items@,
                selected,
                highlight,
                sym@,
                inner,
                line_h,
                sym_w,
                offset as int,
                visible as int,
                vi as int,
            ),
        decreases visible - vi,
    {
        let i: usize = offset + vi;
        proof {
            lemma_row_offset(inner.h as int, line_h as int, vi as int);
        }
        let y: u32 = inner.y + (vi as u32) * line_h;
        let is_sel: bool = match selected {
            Some(s) => s == i,
            None => false,
        };
        let ghost this = item_cmds(items@[i as int], is_sel, highlight, sym@, inner, y, line_h, sym_w);
        let ghost rest = rows_cmds(
            items@,
            selected,
            highlight,
            sym@,
            inner,
            line_h,
            sym_w,
            offset as int,
            visible as int,
            vi + 1,
        );
        render_item(ctx, &items[i], is_sel, highlight, sym, inner, y, sym_w);
        proof {
            assert((start + done) + this =~= start + (done + this));
            assert(done + (this + rest) =~= (done + this) + rest);
            done = done + this;
        }
        vi = vi + 1;
    }
    proof {
        assert(rows_cmds(
            items@,
            selected,
            highlight,
            sym@,
            inner,
            line_h,
            sym_w,
            offset as int,
            visible as int,
            vi as int,
        ) =~= Seq::<DrawCmdView>::empty());
        assert(done + Seq::<DrawCmdView>::empty() =~= done);
    }
}

fn render_scrollbar(ctx: &mut DrawContext, len: usize, inner: Rect, offset: usize, visible: usize)
    requires
        visible <= inner.h,
        inner.x + inner.w <= u32::MAX,
        len > visible ==> inner.y + offset * inner.h / (len as int) <= u32::MAX,
    ensures
        final(ctx).same_frame(old(ctx)),
        final(ctx).drawn() == old(ctx).drawn() + scrollbar_cmds(
            len as int,
            inner,
            offset as int,
            visible as int,
        ),
{
    if len > visible {
        let total: u128 = len as u128;
        proof {
            assert(0 <= visible * inner.h <= total * inner.h && total * inner.h <= 0x1_0000_0000_0000_0000
                * 0x1_0000_0000) by (nonlinear_arith)
                requires
                    0 <= visible <= total,
                    total <= 0x1_0000_0000_0000_0000,
                    0 <= inner.h <= 0x1_0000_0000,
            ;
            assert(0 <= offset * inner.h <= 0x1_0000_0000_0000_0000 * 0x1_0000_0000)
                by (nonlinear_arith)
                requires
                    0 <= offset <= 0x1_0000_0000_0000_0000,
                    0 <= inner.h <= 0x1_0000_0000,
            ;
            vstd::arithmetic::div_mod::lemma_div_pos_is_pos(visible * inner.h, total as int);
            vstd::arithmetic::div_mod::lemma_div_is_ordered(
                visible * inner.h,
                total * inner.h,
                total as int,
            );
            vstd::arithmetic::div_mod::lemma_div_multiples_vanish(inner.h as int, total as int);
            assert(total * inner.h == total as int * inner.h as int);
            vstd::arithmetic::div_mod::lemma_div_pos_is_pos(offset * inner.h, total as int);
        }
        let share: u128 = (visible as u128 * inner.h as u128) / total;
        let bar_h: u32 = if share < 2 { 2 } else { share as u32 };
        let down: u128 = (offset as u128 * inner.h as u128) / total;
        let bar_y: u32 = (inner.y as u128 + down) as u32;
        ctx.fill_rect(
            Rect::new(inner.x + (if inner.w >= 2 { inner.w - 2 } else { 0 }), bar_y, 2, bar_h),
            Color::gray(),
        );
    } else {
        assert(ctx.drawn() + Seq::<DrawCmdView>::empty() =~= ctx.drawn());
    }
}

// ── Input ────────────────────────────────────────────────────────────────────

/// Text and cursor of a one-line input. The cursor counts characters.
#[derive(Debug, Default)]
pub struct InputState {
    pub value: String,
    pub cursor: usize,
}

impl InputState {
    /// The cursor is on a character or just behind the last.
    pub open spec fn wf(&self) -> bool {
        self.cursor <= self.value@.len()
    }

    /// Where a character is inserted: at the cursor, or at the end of the
    /// text if the cursor is beyond it.
    pub open spec fn insert_at(&self) -> int {
        if self.cursor <= self.value@.len() {
            self.cursor as int
        } else {
            self.value@.len() as int
        }
    }

    /// Insert `ch` at the cursor, or at the end of the text if the cursor is
    /// beyond it, and move the cursor one on.
    pub fn insert(&mut self, ch: char)
        requires
            old(self).cursor < usize::MAX,
        ensures
            final(self).value@ == old(self).value@.insert(old(self).insert_at(), ch),
            final(self).cursor == old(self).cursor + 1,
            final(self).wf() == old(self).wf(),
    {
        let v = chars_of(self.value.as_str());
        let at: usize = if self.cursor <= v.len() { self.cursor } else { v.len() };
        let mut t = string_of(&v, 0, at);
        push_char(&mut t, ch);
        let tail = string_of(&v, at, v.len());
        t.append(tail.as_str());
        assert(t@ =~= old(self).value@.insert(at as int, ch));
        self.value = t;
        self.cursor = self.cursor + 1;
    }

    /// Remove the character before the cursor, if there is one.
    pub fn backspace(&mut self)
        requires
            old(self).wf(),
        ensures
            final(self).wf(),
            old(self).cursor == 0 ==> final(self).value@ == old(self).value@ && final(self).cursor
                == 0,
            old(self).cursor > 0 ==> final(self).value@ == old(self).value@.remove(
                old(self).cursor - 1,
            ) && final(self).cursor == old(self).cursor - 1,
    {
        if self.cursor == 0 {
            return ;
        }
        self.cursor = self.cursor - 1;
        self.remove_at_cursor();
    }

    /// Remove the character under the cursor, if there is one.
    pub fn delete(&mut self)
        ensures
            final(self).wf() == old(self).wf(),
            final(self).cursor == old(self).cursor,
            final(self).value@ == (if old(self).cursor < old(self).value@.len() {
                old(self).value@.remove(old(self).cursor as int)
            } else {
                old(self).value@
            }),
    {
        if self.cursor >= self.value.as_str().unicode_len() {
            return ;
        }
        self.remove_at_cursor();
    }

    fn remove_at_cursor(&mut self)
        requires
            old(self).cursor < old(self).value@.len(),
        ensures
            final(self).cursor == old(self).cursor,
            final(self).value@ == old(self).value@.remove(old(self).cursor as int),
    {
        let v = chars_of(self.value.as_str());
        let at: usize = self.cursor;
        let n: usize = v.len();
        assert(at < n);
        let mut t = string_of(&v, 0, at);
        let tail = string_of(&v, at + 1, n);
        t.append(tail.as_str());
        assert(t@ =~= old(self).value@.remove(at as int));
        self.value = t;
    }

    pub fn move_left(&mut self)
        ensures
            final(self).value == old(self).value,
            final(self).cursor == sub_or_zero(old(self).cursor as int, 1),
    {
        self.cursor = if self.cursor >= 1 { self.cursor - 1 } else { 0 };
    }

    /// Move the cursor one character on, at most behind the last; a cursor
    /// beyond the text comes back to its end.
    pub fn move_right(&mut self)
        ensures
            final(self).wf(),
            final(self).value == old(self).value,
            final(self).cursor == (if old(self).cursor < old(self).value@.len() {
                old(self).cursor + 1
            } else {
                old(self).value@.len() as int
            }),
    {
        let n: usize = self.value.as_str().unicode_len();
        self.cursor = if self.cursor < n { self.cursor + 1 } else { n };
    }

    pub fn home(&mut self)
        ensures
            final(self).value == old(self).value,
            final(self).cursor == 0,
    {
        self.cursor = 0;
    }

    pub fn end(&mut self)
        ensures
            final(self).value == old(self).value,
            final(self).cursor == old(self).value@.len(),
    {
        self.cursor = self.value.as_str().unicode_len();
    }

    pub fn clear(&mut self)
        ensures
            final(self).wf(),
            final(self).value@.len() == 0,
            final(self).cursor == 0,
    {
        self.value = String::new();
        self.cursor = 0;
    }
}

/// A one-line text input with a block cursor.
pub struct Input<'a> {
    pub state: &'a mut InputState,
    pub block: Option<Block>,
    pub style: Style,
    pub cursor_color: Color,
    pub placeholder: Option<String>,
    pub focused: bool,
}

/// First character shown of an input whose cursor is at `cur` and that has
/// room for `visible` characters: the text scrolls so that the cursor is
/// the last character in view.
pub open spec fn input_scroll(cur: int, visible: int) -> int {
    if cur >= visible {
        cur - visible + 1
    } else {
        0
    }
}

/// The part of `text` from `from` on, at most `count` characters.
pub open spec fn window(text: Seq<char>, from: int, count: int) -> Seq<char> {
    let a = if from < text.len() {
        from
    } else {
        text.len() as int
    };
    let b = if a + count < text.len() {
        a + count
    } else {
        text.len() as int
    };
    text.subrange(a, b)
}

impl<'a> Input<'a> {
    pub fn new(state: &'a mut InputState) -> (i: Input<'a>)
        ensures
            i.block is None,
            i.style == (Style {
                fg: Color(255, 255, 255, 255),
                bg: Color(0, 0, 0, 0),
                bold: false,
                italic: false,
            }),
            i.cursor_color == Color(0, 200, 255, 255),
            i.placeholder is None,
            i.focused,
            *i.state == *old(state),
            *final(i.state) == *final(state),
    {
        Input {
            state,
            block: None,
            style: Style::default(),
            cursor_color: Color::cyan(),
            placeholder: None,
            focused: true,
        }
    }

    /// Same state, and the same settings but for one that the caller names.
    pub open spec fn same_but(
        &self,
        other: &Input<'a>,
        block: bool,
        style: bool,
        cursor_color: bool,
        placeholder: bool,
        focused: bool,
    ) -> bool {
        &&& block || self.block == other.block
        &&& style || self.style == other.style
        &&& cursor_color || self.cursor_color == other.cursor_color
        &&& placeholder || self.placeholder == other.placeholder
        &&& focused || self.focused == other.focused
    }

    pub fn block(self, b: Block) -> (i: Input<'a>)
        ensures
            i.block == Some(b),
            i.same_but(&self, true, false, false, false, false),
            *i.state == *old(self.state),
            *final(i.state) == *final(self.state),
    {
        Input {
            state: self.state,
            block: Some(b),
            style: self.style,
            cursor_color: self.cursor_color,
            placeholder: self.placeholder,
            focused: self.focused,
        }
    }

    pub fn style(self, s: Style) -> (i: Input<'a>)
        ensures
            i.style == s,
            i.same_but(&self, false, true, false, false, false),
            *i.state == *old(self.state),
            *final(i.state) == *final(self.state),
    {
        Input {
            state: self.state,
            block: self.block,
            style: s,
            cursor_color: self.cursor_color,
            placeholder: self.placeholder,
            focused: self.focused,
        }
    }

    pub fn cursor_color(self, c: Color) -> (i: Input<'a>)
        ensures
            i.cursor_color == c,
            i.same_but(&self, false, false, true, false, false),
            *i.state == *old(self.state),
            *final(i.state) == *final(self.state),
    {
        Input {
            state: self.state,
            block: self.block,
            style: self.style,
            cursor_color: c,
            placeholder: self.placeholder,
            focused: self.focused,
        }
    }

    pub fn placeholder(self, s: &str) -> (i: Input<'a>)
        ensures
            i.placeholder matches Some(p) && p@ == s@,
            i.same_but(&self, false, false, false, true, false),
            *i.state == *old(self.state),
            *final(i.state) == *final(self.state),
    {
        Input {
            state: self.state,
            block: self.block,
            style: self.style,
            cursor_color: self.cursor_color,
            placeholder: Some(s.to_owned()),
            focused: self.focused,
        }
    }

    pub fn focused(self, f: bool) -> (i: Input<'a>)
        ensures
            i.focused == f,
            i.same_but(&self, false, false, false, false, true),
            *i.state == *old(self.state),
            *final(i.state) == *final(self.state),
    {
        Input {
            state: self.state,
            block: self.block,
            style: self.style,
            cursor_color: self.cursor_color,
            placeholder: self.placeholder,
            focused: f,
        }
    }

    /// The text that the input shows: the placeholder, in grey, while the
    /// value is empty; else the part of the value that is in view.
    pub open spec fn shown(&self, visible: int) -> (Seq<char>, Style) {
        shown_text(
            self.state.value@,
            self.state.cursor as int,
            match self.placeholder {
                Some(p) => Some(p@),
                None => None,
            },
            self.style,
            visible,
        )
    }

    /// The commands of the cursor: a block in the cursor colour with the
    /// character under it in black, if the input has the focus and the
    /// block fits into the inner area.
    pub open spec fn cursor_cmds(&self, inner: Rect, cell_w: u32, cell_h: u32) -> Seq<DrawCmdView> {
        cursor_block(
            self.state.value@,
            self.state.cursor as int,
            self.focused,
            self.cursor_color,
            inner,
            glyph_w(cell_w),
            cell_h,
        )
    }
}

impl<'a> Widget for Input<'a> {
    /// The block, if any; then, inside it, the text in view and the cursor.
    open spec fn draws(&self, area: Rect, cell_w: u32, cell_h: u32) -> Seq<DrawCmdView> {
        let inner = frame_inner(self.block, area);
        let visible = inner.w as int / glyph_w(cell_w) as int;
        frame_cmds(self.block, area, cell_w, cell_h) + (if inner.w == 0 || inner.h == 0 {
            Seq::empty()
        } else {
            text_cmds(inner.x, inner.y, self.shown(visible).0, self.shown(visible).1, Some(inner.w))
                + self.cursor_cmds(inner, cell_w, cell_h)
        })
    }

    open spec fn fits(&self, area: Rect, cell_w: u32, cell_h: u32) -> bool {
        frame_fits(self.block, area, cell_w, cell_h) && self.state.wf() && self.state.cursor
            < usize::MAX
    }

    fn render(self, area: Rect, ctx: &mut DrawContext)
        ensures
            *final(self.state) == *old(self.state),
    {
        let ghost want = self.draws(area, ctx.cell_w, ctx.cell_h);
        let ghost head = frame_cmds(self.block, area, ctx.cell_w, ctx.cell_h);
        let inner = render_frame(self.block, area, ctx);
        let ghost framed = ctx.drawn();
        if inner.is_empty() {
            assert(ctx.drawn() =~= old(ctx).drawn() + want);
            return ;
        }
        let cw: u32 = glyph_width(ctx.cell_w);
        let visible: usize = (inner.w / cw) as usize;
        let text = chars_of(self.state.value.as_str());
        let cur: usize = self.state.cursor;
        let ghost shown = self.shown(visible as int);
        let ghost line = text_cmds(inner.x, inner.y, shown.0, shown.1, Some(inner.w));
        let ghost cursor = self.cursor_cmds(inner, ctx.cell_w, ctx.cell_h);
        match &self.placeholder {
            Some(p) => input_text(ctx, &text, cur, Some(p.as_str()), self.style, inner, visible),
            None => input_text(ctx, &text, cur, None, self.style, inner, visible),
        }
        assert(ctx.drawn() == framed + line);
        input_cursor(ctx, &text, cur, self.focused, self.cursor_color, inner, cw);
        assert(ctx.drawn() == (framed + line) + cursor);
        proof {
            assert((framed + line) + cursor =~= framed + (line + cursor));
            assert((old(ctx).drawn() + head) + (line + cursor) =~= old(ctx).drawn() + (head + (line
                + cursor)));
        }
    }
}

/// What an input with the given text shows, and in which style.
pub open spec fn shown_text(
    text: Seq<char>,
    cur: int,
    placeholder: Option<Seq<char>>,
    style: Style,
    visible: int,
) -> (Seq<char>, Style) {
    if text.len() == 0 {
        match placeholder {
            Some(p) => (
                p,
                Style {
                    fg: Color(128, 128, 128, 255),
                    bg: Color(0, 0, 0, 0),
                    bold: false,
                    italic: false,
                },
            ),
            None => (Seq::empty(), style),
        }
    } else {
        (window(text, input_scroll(cur, visible), visible), style)
    }
}

fn input_text(
    ctx: &mut DrawContext,
    text: &Vec<char>,
    cur: usize,
    placeholder: Option<&str>,
    style: Style,
    inner: Rect,
    visible: usize,
)
    requires
        cur < usize::MAX,
    ensures
        final(ctx).same_frame(old(ctx)),
        final(ctx).drawn() == old(ctx).drawn() + text_cmds(
            inner.x,
            inner.y,
            shown_text(
                text@,
                cur as int,
                match placeholder {
                    Some(p) => Some(p@),
                    None => None,
                },
                style,
                visible as int,
            ).0,
            shown_text(
                text@,
                cur as int,
                match placeholder {
                    Some(p) => Some(p@),
                    None => None,
                },
                style,
                visible as int,
            ).1,
            Some(inner.w),
        ),
{
    let n: usize = text.len();
    if n == 0 {
        match placeholder {
            Some(p) => {
                ctx.text(inner.x, inner.y, p, Style::default().fg(Color::gray()), Some(inner.w));
            },
            None => {
                let empty = String::new();
                ctx.text(inner.x, inner.y, empty.as_str(), style, Some(inner.w));
            },
        }
    } else {
        let scroll: usize = if cur >= visible { cur - visible + 1 } else { 0 };
        let from: usize = if scroll < n { scroll } else { n };
        let to: usize = if visible < n - from { from + visible } else { n };
        let display = string_of(text, from, to);
        ctx.text(inner.x, inner.y, display.as_str(), style, Some(inner.w));
    }
}

/// The commands of the cursor of an input.
pub open spec fn cursor_block(
    text: Seq<char>,
    cur: int,
    focused: bool,
    color: Color,
    inner: Rect,
    cw: u32,
    cell_h: u32,
) -> Seq<DrawCmdView> {
    let visible = inner.w as int / cw as int;
    let cx = inner.x + sub_or_zero(cur, input_scroll(cur, visible)) * cw;
    if focused && cx + cw <= inner.x + inner.w {
        fill_cmds(Rect { x: cx as u32, y: inner.y, w: cw, h: cell_h }, color) + text_cmds(
            cx as u32,
            inner.y,
            if cur < text.len() {
                seq![text[cur]]
            } else {
                " "@
            },
            Style { fg: Color(0, 0, 0, 255), bg: color, bold: false, italic: false },
            Some(cw),
        )
    } else {
        Seq::empty()
    }
}

fn input_cursor(
    ctx: &mut DrawContext,
    text: &Vec<char>,
    cur: usize,
    focused: bool,
    color: Color,
    inner: Rect,
    cw: u32,
)
    requires
        cw > 0,
        cur < usize::MAX,
        inner.x + inner.w <= u32::MAX,
    ensures
        final(ctx).same_frame(old(ctx)),
        final(ctx).drawn() == old(ctx).drawn() + cursor_block(
            text@,
            cur as int,
            focused,
            color,
            inner,
            cw,
            old(ctx).cell_h,
        ),
{
    let ghost want = cursor_block(text@, cur as int, focused, color, inner, cw, ctx.cell_h);
    let visible: usize = (inner.w / cw) as usize;
    let scroll: usize = if cur >= visible { cur - visible + 1 } else { 0 };
    let cur_rel: usize = if cur >= scroll { cur - scroll } else { 0 };
    proof {
        vstd::arithmetic::div_mod::lemma_fundamental_div_mod(inner.w as int, cw as int);
        vstd::arithmetic::div_mod::lemma_mod_pos_bound(inner.w as int, cw as int);
        assert(cur_rel * cw <= visible * cw) by (nonlinear_arith)
            requires
                cur_rel <= visible,
                cw >= 0,
        ;
        assert(visible * cw == cw * visible) by (nonlinear_arith);
        assert(0 <= cur_rel * cw) by (nonlinear_arith)
            requires
                cur_rel >= 0,
                cw >= 0,
        ;
    }
    let cx: u32 = inner.x + (cur_rel as u32) * cw;
    if focused && cx as u64 + cw as u64 <= inner.x as u64 + inner.w as u64 {
        let mut cur_char = String::new();
        if cur < text.len() {
            push_char(&mut cur_char, text[cur]);
            assert(cur_char@ =~= seq![text@[cur as int]]);
        } else {
            cur_char.append(" ");
            assert(cur_char@ =~= " "@);
        }
        ctx.fill_rect(Rect::new(cx, inner.y, cw, ctx.cell_h), color);
        ctx.text(cx, inner.y, cur_char.as_str(), Style::default().fg(Color::black()).bg(color), Some(cw));
        assert(ctx.drawn() =~= old(ctx).drawn() + want);
    } else {
        assert(ctx.drawn() =~= old(ctx).drawn() + want);
    }
}

} // verus!

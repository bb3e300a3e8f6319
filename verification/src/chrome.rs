//! The window manager's chrome: pane borders, titles and the status bar,
//! drawn into a terminal buffer and turned into pixel draw commands.

use crate::cells::{
    ansi256, ansi256_spec, default_bg, default_fg, grid_cmds, lemma_cell_index, CellBuffer, Rgb,
    TwmCell,
};
use crate::geometry::{cell_rect, sat_sub, CellRect};
use crate::pixelui::{cmd_views, DrawCmd};
use crate::text::{chars_of, decimal, digit_char, push_char, push_chars, push_decimal, string_of};
use crate::twm::{find_pane, Pane, PaneContent, TwmState};
use crate::twm_model::{pane_pos, ContentView, PaneId, PaneView, TwmView, WORKSPACES};
use ratatui::buffer::Buffer;
use ratatui::layout::Rect;
use ratatui::style::{Color, Modifier, Style};
use ratatui::text::{Line, Span};
use ratatui::widgets::{Block, Borders, Paragraph, Widget};
use vstd::prelude::*;

verus! {

// ── terminal cells ───────────────────────────────────────────────────────────

/// A colour of a terminal cell.
#[derive(Clone, Copy, Debug, PartialEq, Eq, Structural)]
pub enum TermColor {
    Reset,
    Black,
    Red,
    Green,
    Yellow,
    Blue,
    Magenta,
    Cyan,
    Gray,
    DarkGray,
    LightRed,
    LightGreen,
    LightYellow,
    LightBlue,
    LightMagenta,
    LightCyan,
    White,
    Rgb(u8, u8, u8),
    Indexed(u8),
}

/// A colour that the chrome writes: none, black, or a theme colour.
#[derive(Clone, Copy, Debug, PartialEq, Eq, Structural)]
pub enum Ink {
    Reset,
    Black,
    Rgb(u8, u8, u8),
}

pub open spec fn ink_color(i: Ink) -> TermColor {
    match i {
        Ink::Reset => TermColor::Reset,
        Ink::Black => TermColor::Black,
        Ink::Rgb(r, g, b) => TermColor::Rgb(r, g, b),
    }
}

/// Bits of a cell's modifier set, as the terminal library numbers them.
pub const BOLD: u16 = 0x0001;

pub const DIM: u16 = 0x0002;

pub const ITALIC: u16 = 0x0004;

pub const REVERSED: u16 = 0x0040;

/// All the bits that a modifier set can hold.
pub const ALL_MODIFIERS: u16 = 0x01FF;

/// The most characters of a text that is handed to a widget: a character
/// is at most three columns wide, and the widgets count columns in 16 bits.
pub const MAX_TEXT: usize = 21844;

/// What one cell of a terminal buffer holds.
pub struct ScreenCell {
    pub symbol: Seq<char>,
    pub fg: TermColor,
    pub bg: TermColor,
    pub modifier: u16,
}

/// The cell of an empty buffer: a space without colours or modifiers.
pub open spec fn blank_screen_cell() -> ScreenCell {
    ScreenCell { symbol: seq![' '], fg: TermColor::Reset, bg: TermColor::Reset, modifier: 0 }
}

#[verifier::external_type_specification]
#[verifier::external_body]
pub struct ExBuffer(Buffer);

/// The cells of a terminal buffer, row by row.
pub uninterp spec fn buffer_cells(buf: &Buffer) -> Seq<ScreenCell>;

/// The part of the grid that a terminal buffer covers.
pub uninterp spec fn buffer_area(buf: &Buffer) -> CellRect;

/// The buffer after a bordered, titled block was drawn into `r`.
pub uninterp spec fn block_drawn(
    cells: Seq<ScreenCell>,
    area: CellRect,
    r: CellRect,
    title: Seq<char>,
    border_fg: Rgb,
    title_fg: Rgb,
    emphasis: u16,
    bg: Rgb,
) -> Seq<ScreenCell>;

/// The buffer after a line of text was drawn into `r`.
pub uninterp spec fn line_drawn(
    cells: Seq<ScreenCell>,
    area: CellRect,
    r: CellRect,
    text: Seq<char>,
    fg: Rgb,
) -> Seq<ScreenCell>;

pub open spec fn inside(r: CellRect, x: int, y: int) -> bool {
    r.x <= x < r.x + r.width && r.y <= y < r.y + r.height
}

/// `inner` lies within `outer`.
pub open spec fn within(inner: CellRect, outer: CellRect) -> bool {
    &&& outer.x <= inner.x
    &&& outer.y <= inner.y
    &&& inner.x + inner.width <= outer.x + outer.width
    &&& inner.y + inner.height <= outer.y + outer.height
}

/// Position of the cell `(x, y)` in a buffer that covers `area`.
pub open spec fn cell_pos(area: CellRect, x: int, y: int) -> int {
    (y - area.y) * area.width + (x - area.x)
}

/// A buffer and the area it covers belong together.
pub open spec fn screen_ok(cells: Seq<ScreenCell>, area: CellRect) -> bool {
    &&& cells.len() == area.width as int * area.height as int
    &&& area.width as int * area.height as int <= 0xFFFF
    &&& area.x as int + area.width as int <= 0xFFFF
    &&& area.y as int + area.height as int <= 0xFFFF
}

/// The cell after a character was put into it with both colours set and
/// the modifiers `add` added.
pub open spec fn inked(c: ScreenCell, ch: char, fg: Ink, bg: Ink, add: u16) -> ScreenCell {
    ScreenCell { symbol: seq![ch], fg: ink_color(fg), bg: ink_color(bg), modifier: c.modifier | add }
}

/// The buffer after `put_cell`.
pub open spec fn put(
    cells: Seq<ScreenCell>,
    area: CellRect,
    x: int,
    y: int,
    ch: char,
    fg: Ink,
    bg: Ink,
    add: u16,
) -> Seq<ScreenCell> {
    cells.update(cell_pos(area, x, y), inked(cells[cell_pos(area, x, y)], ch, fg, bg, add))
}

/// `Buffer::empty` on the rectangle at the origin with the given size:
/// a buffer of blank cells that covers it.
#[verifier::external_body]
fn new_buffer(cols: u16, rows: u16) -> (buf: Buffer)
    requires
        cols as int * rows as int <= 0xFFFF,
    ensures
        buffer_area(&buf) == (CellRect { x: 0, y: 0, width: cols, height: rows }),
        buffer_cells(&buf) == Seq::new((cols as int * rows as int) as nat, |i: int| blank_screen_cell()),
{
    Buffer::empty(Rect { x: 0, y: 0, width: cols, height: rows })
}

/// `Buffer::get_mut`, then `Cell::set_char` and `Cell::set_style` with a
/// style that sets both colours and adds the modifiers `add`: the cell's
/// symbol becomes the character, its colours the given ones, and the
/// modifiers are added to those it has. `add` holds no bits but those of
/// modifiers, which the conversion would drop.
#[verifier::external_body]
fn put_cell(buf: &mut Buffer, x: u16, y: u16, ch: char, fg: Ink, bg: Ink, add: u16)
    requires
        inside(buffer_area(old(buf)), x as int, y as int),
        screen_ok(buffer_cells(old(buf)), buffer_area(old(buf))),
        add <= ALL_MODIFIERS,
    ensures
        buffer_area(final(buf)) == buffer_area(old(buf)),
        buffer_cells(final(buf)) == put(
            buffer_cells(old(buf)),
            buffer_area(old(buf)),
            x as int,
            y as int,
            ch,
            fg,
            bg,
            add,
        ),
{
    let ink = |i: Ink| match i {
        Ink::Reset => Color::Reset,
        Ink::Black => Color::Black,
        Ink::Rgb(r, g, b) => Color::Rgb(r, g, b),
    };
    let style = Style::default().fg(ink(fg)).bg(ink(bg)).add_modifier(Modifier::from_bits_truncate(add));
    buf.get_mut(x, y).set_char(ch).set_style(style);
}

/// `Buffer::get` and `Cell::symbol`: the symbol of the cell at `(x, y)`.
#[verifier::external_body]
fn symbol_at(buf: &Buffer, x: u16, y: u16) -> (s: String)
    requires
        inside(buffer_area(buf), x as int, y as int),
        screen_ok(buffer_cells(buf), buffer_area(buf)),
    ensures
        s@ == buffer_cells(buf)[cell_pos(buffer_area(buf), x as int, y as int)].symbol,
{
    buf.get(x, y).symbol().to_string()
}

/// `Buffer::get` and the cell's `modifier` bits.
#[verifier::external_body]
fn modifier_at(buf: &Buffer, x: u16, y: u16) -> (m: u16)
    requires
        inside(buffer_area(buf), x as int, y as int),
        screen_ok(buffer_cells(buf), buffer_area(buf)),
    ensures
        m == buffer_cells(buf)[cell_pos(buffer_area(buf), x as int, y as int)].modifier,
{
    buf.get(x, y).modifier.bits()
}

/// `Buffer::get` and the cell's foreground colour.
#[verifier::external_body]
fn fg_at(buf: &Buffer, x: u16, y: u16) -> (c: TermColor)
    requires
        inside(buffer_area(buf), x as int, y as int),
        screen_ok(buffer_cells(buf), buffer_area(buf)),
    ensures
        c == buffer_cells(buf)[cell_pos(buffer_area(buf), x as int, y as int)].fg,
{
    match buf.get(x, y).fg {
        Color::Reset => TermColor::Reset, Color::Black => TermColor::Black,
        Color::Red => TermColor::Red, Color::Green => TermColor::Green,
        Color::Yellow => TermColor::Yellow, Color::Blue => TermColor::Blue,
        Color::Magenta => TermColor::Magenta, Color::Cyan => TermColor::Cyan,
        Color::Gray => TermColor::Gray, Color::DarkGray => TermColor::DarkGray,
        Color::LightRed => TermColor::LightRed, Color::LightGreen => TermColor::LightGreen,
        Color::LightYellow => TermColor::LightYellow, Color::LightBlue => TermColor::LightBlue,
        Color::LightMagenta => TermColor::LightMagenta, Color::LightCyan => TermColor::LightCyan,
        Color::White => TermColor::White, Color::Rgb(r, g, b) => TermColor::Rgb(r, g, b),
        Color::Indexed(i) => TermColor::Indexed(i),
    }
}

/// `Buffer::get` and the cell's background colour.
#[verifier::external_body]
fn bg_at(buf: &Buffer, x: u16, y: u16) -> (c: TermColor)
    requires
        inside(buffer_area(buf), x as int, y as int),
        screen_ok(buffer_cells(buf), buffer_area(buf)),
    ensures
        c == buffer_cells(buf)[cell_pos(buffer_area(buf), x as int, y as int)].bg,
{
    match buf.get(x, y).bg {
        Color::Reset => TermColor::Reset, Color::Black => TermColor::Black,
        Color::Red => TermColor::Red, Color::Green => TermColor::Green,
        Color::Yellow => TermColor::Yellow, Color::Blue => TermColor::Blue,
        Color::Magenta => TermColor::Magenta, Color::Cyan => TermColor::Cyan,
        Color::Gray => TermColor::Gray, Color::DarkGray => TermColor::DarkGray,
        Color::LightRed => TermColor::LightRed, Color::LightGreen => TermColor::LightGreen,
        Color::LightYellow => TermColor::LightYellow, Color::LightBlue => TermColor::LightBlue,
        Color::LightMagenta => TermColor::LightMagenta, Color::LightCyan => TermColor::LightCyan,
        Color::White => TermColor::White, Color::Rgb(r, g, b) => TermColor::Rgb(r, g, b),
        Color::Indexed(i) => TermColor::Indexed(i),
    }
}

/// `Block::render` of a block with all four borders, the title `title` on
/// its top border, the border in `border_fg` and the title in `title_fg`,
/// both with the modifiers `emphasis`, on the background `bg`. The block is
/// clipped to the buffer; the buffer keeps its area and its number of cells.
/// The title is short enough for its width in columns, at most three to a
/// character, to stay below 65535: the widget adds to it in 16 bits.
#[verifier::external_body]
fn draw_block(
    buf: &mut Buffer,
    r: CellRect,
    title: &str,
    border_fg: Rgb,
    title_fg: Rgb,
    emphasis: u16,
    bg: Rgb,
)
    requires
        screen_ok(buffer_cells(old(buf)), buffer_area(old(buf))),
        r.x as int + r.width as int <= 0xFFFF,
        r.y as int + r.height as int <= 0xFFFF,
        title@.len() <= MAX_TEXT,
    ensures
        buffer_area(final(buf)) == buffer_area(old(buf)),
        buffer_cells(final(buf)).len() == buffer_cells(old(buf)).len(),
        buffer_cells(final(buf)) == block_drawn(
            buffer_cells(old(buf)),
            buffer_area(old(buf)),
            r,
            title@,
            border_fg,
            title_fg,
            emphasis,
            bg,
        ),
{
    let add = Modifier::from_bits_truncate(emphasis);
    let bs = Style::default().fg(Color::Rgb(border_fg.0, border_fg.1, border_fg.2)).add_modifier(add);
    let ts = Style::default().fg(Color::Rgb(title_fg.0, title_fg.1, title_fg.2)).add_modifier(add);
    let block = Block::default().borders(Borders::ALL).border_style(bs)
        .title(Span::styled(title.to_string(), ts))
        .style(Style::default().bg(Color::Rgb(bg.0, bg.1, bg.2)));
    block.render(Rect { x: r.x, y: r.y, width: r.width, height: r.height }, buf);
}

/// What a block with all four borders leaves free of `r`: the origin moves
/// in by one cell, but not past the far edge, and each side loses two.
pub open spec fn bordered_inner(r: CellRect) -> CellRect {
    CellRect {
        x: if r.width >= 1 { (r.x + 1) as u16 } else { r.x },
        y: if r.height >= 1 { (r.y + 1) as u16 } else { r.y },
        width: if r.width >= 2 { (r.width - 2) as u16 } else { 0 },
        height: if r.height >= 2 { (r.height - 2) as u16 } else { 0 },
    }
}

/// `Block::inner` of a block with all four borders and no padding.
#[verifier::external_body]
fn block_inner(r: CellRect) -> (inner: CellRect)
    requires
        r.x as int + r.width as int <= 0xFFFF,
        r.y as int + r.height as int <= 0xFFFF,
    ensures
        inner == bordered_inner(r),
{
    let q = Block::default().borders(Borders::ALL).inner(
        Rect { x: r.x, y: r.y, width: r.width, height: r.height },
    );
    CellRect { x: q.x, y: q.y, width: q.width, height: q.height }
}

/// `Paragraph::render` of one line of text in the colour `fg` into `r`,
/// which lies within the buffer. The buffer keeps its area and its number
/// of cells. The widget adds widths in 16 bits: `r` is at most 32767 cells
/// wide, and the text is short enough for its width in columns, at most
/// three to a character, to stay below 65535.
#[verifier::external_body]
fn draw_line(buf: &mut Buffer, r: CellRect, text: &str, fg: Rgb)
    requires
        screen_ok(buffer_cells(old(buf)), buffer_area(old(buf))),
        within(r, buffer_area(old(buf))),
        r.width <= 0x7FFF,
        text@.len() <= MAX_TEXT,
    ensures
        buffer_area(final(buf)) == buffer_area(old(buf)),
        buffer_cells(final(buf)).len() == buffer_cells(old(buf)).len(),
        buffer_cells(final(buf)) == line_drawn(
            buffer_cells(old(buf)),
            buffer_area(old(buf)),
            r,
            text@,
            fg,
        ),
{
    let style = Style::default().fg(Color::Rgb(fg.0, fg.1, fg.2));
    let p = Paragraph::new(Line::from(Span::styled(text.to_string(), style)));
    p.render(Rect { x: r.x, y: r.y, width: r.width, height: r.height }, buf);
}

// ── cells out of the terminal buffer ─────────────────────────────────────────

/// Pixel colour of a terminal colour; `default` stands for "none".
pub open spec fn term_rgb(c: TermColor, default: Rgb) -> Rgb {
    match c {
        TermColor::Rgb(r, g, b) => (r, g, b),
        TermColor::Reset => default,
        TermColor::Black => (69, 71, 90),
        TermColor::Red => (243, 139, 168),
        TermColor::Green => (166, 227, 161),
        TermColor::Yellow => (249, 226, 175),
        TermColor::Blue => (137, 180, 250),
        TermColor::Magenta => (203, 166, 247),
        TermColor::Cyan => (148, 226, 213),
        TermColor::White => (186, 194, 222),
        TermColor::DarkGray => (88, 91, 112),
        TermColor::Gray => (166, 173, 200),
        TermColor::LightRed => (243, 139, 168),
        TermColor::LightGreen => (166, 227, 161),
        TermColor::LightBlue => (137, 180, 250),
        TermColor::LightYellow => (249, 226, 175),
        TermColor::LightMagenta => (203, 166, 247),
        TermColor::LightCyan => (148, 226, 213),
        TermColor::Indexed(i) => ansi256_spec(i),
    }
}

pub fn terminal_color(c: TermColor, default: Rgb) -> (rgb: Rgb)
    ensures
        rgb == term_rgb(c, default),
{
    match c {
        TermColor::Rgb(r, g, b) => (r, g, b),
        TermColor::Reset => default,
        TermColor::Black => (69, 71, 90),
        TermColor::Red => (243, 139, 168),
        TermColor::Green => (166, 227, 161),
        TermColor::Yellow => (249, 226, 175),
        TermColor::Blue => (137, 180, 250),
        TermColor::Magenta => (203, 166, 247),
        TermColor::Cyan => (148, 226, 213),
        TermColor::White => (186, 194, 222),
        TermColor::DarkGray => (88, 91, 112),
        TermColor::Gray => (166, 173, 200),
        TermColor::LightRed => (243, 139, 168),
        TermColor::LightGreen => (166, 227, 161),
        TermColor::LightBlue => (137, 180, 250),
        TermColor::LightYellow => (249, 226, 175),
        TermColor::LightMagenta => (203, 166, 247),
        TermColor::LightCyan => (148, 226, 213),
        TermColor::Indexed(i) => ansi256(i),
    }
}

pub open spec fn halved(c: Rgb) -> Rgb {
    (c.0 / 2, c.1 / 2, c.2 / 2)
}

/// The grid cell for a terminal cell: colours resolved against the
/// defaults, swapped if the cell is reversed, the text colour then halved
/// if it is dim; the first character of the symbol, or a space.
pub open spec fn cell_of(c: ScreenCell) -> TwmCell {
    let fg0 = term_rgb(c.fg, default_fg());
    let bg0 = term_rgb(c.bg, default_bg());
    let fg1 = if c.modifier & REVERSED != 0 {
        bg0
    } else {
        fg0
    };
    let bg1 = if c.modifier & REVERSED != 0 {
        fg0
    } else {
        bg0
    };
    TwmCell {
        ch: if c.symbol.len() > 0 {
            c.symbol[0]
        } else {
            ' '
        },
        fg: if c.modifier & DIM != 0 {
            halved(fg1)
        } else {
            fg1
        },
        bg: bg1,
        bold: c.modifier & BOLD != 0,
        italic: c.modifier & ITALIC != 0,
    }
}

pub fn cell_convert(symbol: &str, fg: TermColor, bg: TermColor, modifier: u16) -> (c: TwmCell)
    ensures
        c == cell_of(ScreenCell { symbol: symbol@, fg, bg, modifier }),
{
    let mut fg1 = terminal_color(fg, (205, 214, 244));
    let mut bg1 = terminal_color(bg, (30, 30, 46));
    if modifier & REVERSED != 0 {
        let t = fg1;
        fg1 = bg1;
        bg1 = t;
    }
    if modifier & DIM != 0 {
        fg1 = (fg1.0 / 2, fg1.1 / 2, fg1.2 / 2);
    }
    let ch: char = if symbol.unicode_len() > 0 { symbol.get_char(0) } else { ' ' };
    TwmCell { ch, fg: fg1, bg: bg1, bold: modifier & BOLD != 0, italic: modifier & ITALIC != 0 }
}

/// The grid cells for the cells of a terminal buffer.
pub open spec fn converted(screen: Seq<ScreenCell>) -> Seq<TwmCell> {
    Seq::new(screen.len(), |i: int| cell_of(screen[i]))
}

/// Copy a terminal buffer of the grid's size into the grid.
fn blit(cells: &mut CellBuffer, buf: &Buffer)
    requires
        old(cells).wf(),
        screen_ok(buffer_cells(buf), buffer_area(buf)),
        buffer_area(buf) == (CellRect { x: 0, y: 0, width: old(cells).cols, height: old(cells).rows }),
    ensures
        final(cells).wf(),
        final(cells).cols == old(cells).cols,
        final(cells).rows == old(cells).rows,
        final(cells).cells@ == converted(buffer_cells(buf)),
{
    let cols: u16 = cells.cols;
    let rows: u16 = cells.rows;
    let ghost screen = buffer_cells(buf);
    let mut row: u16 = 0;
    while row < rows
        invariant
            cells.wf(),
            cells.cols == cols,
            cells.rows == rows,
            row <= rows,
            screen == buffer_cells(buf),
            screen_ok(screen, buffer_area(buf)),
            buffer_area(buf) == (CellRect { x: 0, y: 0, width: cols, height: rows }),
            forall|i: int| 0 <= i < row * cols ==> #[trigger] cells.cells[i] == cell_of(screen[i]),
        decreases rows - row,
    {
        let mut col: u16 = 0;
        while col < cols
            invariant
                cells.wf(),
                cells.cols == cols,
                cells.rows == rows,
                row < rows,
                col <= cols,
                screen == buffer_cells(buf),
                screen_ok(screen, buffer_area(buf)),
                buffer_area(buf) == (CellRect { x: 0, y: 0, width: cols, height: rows }),
                forall|i: int|
                    0 <= i < row * cols + col ==> #[trigger] cells.cells[i] == cell_of(screen[i]),
            decreases cols - col,
        {
            proof {
                lemma_cell_index(cols as int, rows as int, col as int, row as int);
                assert(row * cols <= 0xFFFF * 0xFFFF) by (nonlinear_arith)
                    requires
                        0 <= row <= 0xFFFF,
                        0 <= cols <= 0xFFFF,
                ;
            }
            let symbol = symbol_at(buf, col, row);
            let c = cell_convert(symbol.as_str(), fg_at(buf, col, row), bg_at(buf, col, row), modifier_at(buf, col, row));
            let idx: usize = row as usize * cols as usize + col as usize;
            cells.cells.set(idx, c);
            col = col + 1;
        }
        proof {
            assert((row + 1) * cols == row * cols + cols) by (nonlinear_arith);
        }
        row = row + 1;
    }
    proof {
        assert(rows * cols == cols * rows) by (nonlinear_arith);
        assert(cells.cells@ =~= converted(screen));
    }
}

// ── texts ────────────────────────────────────────────────────────────────────

/// `s` cut to at most `max` characters: as it is if it fits; cut short if
/// there is no room for dots; else its first `max - 3` characters and three
/// dots.
pub open spec fn truncated(s: Seq<char>, max: int) -> Seq<char> {
    if s.len() <= max {
        s
    } else if max <= 3 {
        s.subrange(0, max)
    } else {
        s.subrange(0, max - 3) + seq!['.', '.', '.']
    }
}

pub fn truncate(s: &str, max: usize) -> (t: String)
    ensures
        t@ == truncated(s@, max as int),
{
    let v = chars_of(s);
    let n: usize = v.len();
    if n <= max {
        let t = string_of(&v, 0, n);
        assert(v@.subrange(0, n as int) =~= v@);
        return t;
    }
    if max <= 3 {
        return string_of(&v, 0, max);
    }
    let mut t = string_of(&v, 0, max - 3);
    push_char(&mut t, '.');
    push_char(&mut t, '.');
    push_char(&mut t, '.');
    assert(t@ =~= truncated(s@, max as int));
    t
}

/// The first `max` characters of `s`; all of it if it has no more.
pub open spec fn leading(s: Seq<char>, max: int) -> Seq<char> {
    if s.len() <= max {
        s
    } else {
        s.subrange(0, max)
    }
}

fn leading_text(s: &str, max: usize) -> (t: String)
    ensures
        t@ == leading(s@, max as int),
        t@.len() <= max,
{
    let v = chars_of(s);
    let n: usize = v.len();
    if n <= max {
        let t = string_of(&v, 0, n);
        assert(v@.subrange(0, n as int) =~= v@);
        t
    } else {
        string_of(&v, 0, max)
    }
}

/// The room for a pane's title in a block that is `width` cells wide: the
/// width less four, and no more than a widget takes.
pub open spec fn title_room(width: u16) -> int {
    if sat_sub(width as int, 4) <= MAX_TEXT {
        sat_sub(width as int, 4)
    } else {
        MAX_TEXT as int
    }
}

/// Sign that marks an embedded pane in its title.
pub const EMBEDDED_SIGIL: char = '\u{f059f}';

/// Sign that marks a shell pane in its title.
pub const SHELL_SIGIL: char = '\u{25c6}';

/// Title of a pane: its name, its id in brackets and the sign of its kind.
pub open spec fn pane_title(content: ContentView, id: PaneId) -> Seq<char> {
    match content {
        ContentView::Embedded { app_id } => seq![' '] + app_id + " ["@ + decimal(id as nat) + "] "@
            + seq![EMBEDDED_SIGIL, ' '],
        ContentView::Shell { title } => seq![' '] + title + " ["@ + decimal(id as nat) + "] "@
            + seq![SHELL_SIGIL, ' '],
        ContentView::Empty => " empty ["@ + decimal(id as nat) + "] "@,
    }
}

pub fn title_label(content: &PaneContent, id: PaneId) -> (t: String)
    ensures
        t@ == pane_title(content@, id),
{
    let mut t = String::new();
    match content {
        PaneContent::Embedded { app_id } => {
            push_char(&mut t, ' ');
            push_chars(&mut t, app_id.as_str());
            push_chars(&mut t, " [");
            push_decimal(&mut t, id as u64);
            push_chars(&mut t, "] ");
            push_char(&mut t, EMBEDDED_SIGIL);
            push_char(&mut t, ' ');
            assert(t@ =~= pane_title(content@, id));
        },
        PaneContent::Shell { title } => {
            push_char(&mut t, ' ');
            push_chars(&mut t, title.as_str());
            push_chars(&mut t, " [");
            push_decimal(&mut t, id as u64);
            push_chars(&mut t, "] ");
            push_char(&mut t, SHELL_SIGIL);
            push_char(&mut t, ' ');
            assert(t@ =~= pane_title(content@, id));
        },
        PaneContent::Empty => {
            push_chars(&mut t, " empty [");
            push_decimal(&mut t, id as u64);
            push_chars(&mut t, "] ");
            assert(t@ =~= pane_title(content@, id));
        },
    }
    t
}

/// The line shown inside a shell pane that has no window.
pub open spec fn shell_hint(title: Seq<char>) -> Seq<char> {
    "  "@ + title + "  (no window)"@
}

fn hint_text(title: &str) -> (t: String)
    ensures
        t@ == shell_hint(title@),
{
    let mut t = String::new();
    push_chars(&mut t, "  ");
    push_chars(&mut t, title);
    push_chars(&mut t, "  (no window)");
    assert(t@ =~= shell_hint(title@));
    t
}

/// Two decimal digits of a number below 100.
pub open spec fn two_digits(v: nat) -> Seq<char> {
    seq![digit_char(v / 10), digit_char(v % 10)]
}

/// Time of day, `HH:MM:SS`, of a number of seconds since midnight of some
/// day.
pub open spec fn clock_of(secs: u64) -> Seq<char> {
    two_digits(((secs / 3600) % 24) as nat) + seq![':'] + two_digits(((secs / 60) % 60) as nat)
        + seq![':'] + two_digits((secs % 60) as nat)
}

fn push_two_digits(t: &mut String, v: u64)
    requires
        v < 100,
    ensures
        final(t)@ == old(t)@ + two_digits(v as nat),
{
    let ghost before = t@;
    push_decimal(t, v / 10);
    push_decimal(t, v % 10);
    proof {
        reveal_with_fuel(decimal, 2);
        assert(t@ =~= before + two_digits(v as nat));
    }
}

pub fn clock_text(secs: u64) -> (t: String)
    ensures
        t@ == clock_of(secs),
{
    let mut t = String::new();
    push_two_digits(&mut t, (secs / 3600) % 24);
    push_char(&mut t, ':');
    push_two_digits(&mut t, (secs / 60) % 60);
    push_char(&mut t, ':');
    push_two_digits(&mut t, secs % 60);
    assert(t@ =~= clock_of(secs));
    t
}

// ── drawing into the buffer ──────────────────────────────────────────────────

/// The buffer after the first `n` cells from `(x0, y)` rightwards were set
/// to `ch` in the given colours.
pub open spec fn row_filled(
    cells: Seq<ScreenCell>,
    area: CellRect,
    x0: int,
    y: int,
    n: nat,
    ch: char,
    fg: Ink,
    bg: Ink,
) -> Seq<ScreenCell>
    decreases n,
{
    if n == 0 {
        cells
    } else {
        put(row_filled(cells, area, x0, y, (n - 1) as nat, ch, fg, bg), area, x0 + n - 1, y, ch, fg, bg, 0)
    }
}

/// The buffer after the first `k` rows of `r` were filled with `ch`.
pub open spec fn rect_filled(
    cells: Seq<ScreenCell>,
    area: CellRect,
    r: CellRect,
    k: nat,
    ch: char,
    fg: Ink,
    bg: Ink,
) -> Seq<ScreenCell>
    decreases k,
{
    if k == 0 {
        cells
    } else {
        row_filled(
            rect_filled(cells, area, r, (k - 1) as nat, ch, fg, bg),
            area,
            r.x as int,
            r.y + k - 1,
            r.width as nat,
            ch,
            fg,
            bg,
        )
    }
}

/// The buffer after the first `k` characters of `text` were written from
/// `(x0, y)` rightwards, as far as they start left of `limit`.
pub open spec fn text_put(
    cells: Seq<ScreenCell>,
    area: CellRect,
    x0: int,
    y: int,
    text: Seq<char>,
    limit: int,
    fg: Ink,
    bg: Ink,
    add: u16,
    k: nat,
) -> Seq<ScreenCell>
    decreases k,
{
    if k == 0 {
        cells
    } else {
        let before = text_put(cells, area, x0, y, text, limit, fg, bg, add, (k - 1) as nat);
        if x0 + k - 1 < limit {
            put(before, area, x0 + k - 1, y, text[k - 1], fg, bg, add)
        } else {
            before
        }
    }
}

proof fn lemma_cell_pos(area: CellRect, x: int, y: int)
    requires
        inside(area, x, y),
    ensures
        0 <= cell_pos(area, x, y) < area.width as int * area.height as int,
{
    lemma_cell_index(area.width as int, area.height as int, x - area.x, y - area.y);
}

fn fill_row(buf: &mut Buffer, x0: u16, y: u16, n: u16, ch: char, fg: Ink, bg: Ink)
    requires
        screen_ok(buffer_cells(old(buf)), buffer_area(old(buf))),
        within(CellRect { x: x0, y, width: n, height: 1 }, buffer_area(old(buf))),
    ensures
        buffer_area(final(buf)) == buffer_area(old(buf)),
        screen_ok(buffer_cells(final(buf)), buffer_area(final(buf))),
        buffer_cells(final(buf)) == row_filled(
            buffer_cells(old(buf)),
            buffer_area(old(buf)),
            x0 as int,
            y as int,
            n as nat,
            ch,
            fg,
            bg,
        ),
{
    let ghost area = buffer_area(buf);
    let ghost start = buffer_cells(buf);
    let mut i: u16 = 0;
    while i < n
        invariant
            i <= n,
            area == buffer_area(buf),
            screen_ok(buffer_cells(buf), area),
            within(CellRect { x: x0, y, width: n, height: 1 }, area),
            buffer_cells(buf) == row_filled(start, area, x0 as int, y as int, i as nat, ch, fg, bg),
        decreases n - i,
    {
        proof {
            lemma_cell_pos(area, x0 + i, y as int);
        }
        put_cell(buf, x0 + i, y, ch, fg, bg, 0);
        i = i + 1;
    }
}

fn fill_rect(buf: &mut Buffer, r: CellRect, ch: char, fg: Ink, bg: Ink)
    requires
        screen_ok(buffer_cells(old(buf)), buffer_area(old(buf))),
        within(r, buffer_area(old(buf))),
    ensures
        buffer_area(final(buf)) == buffer_area(old(buf)),
        screen_ok(buffer_cells(final(buf)), buffer_area(final(buf))),
        buffer_cells(final(buf)) == rect_filled(
            buffer_cells(old(buf)),
            buffer_area(old(buf)),
            r,
            r.height as nat,
            ch,
            fg,
            bg,
        ),
{
    let ghost area = buffer_area(buf);
    let ghost start = buffer_cells(buf);
    let mut k: u16 = 0;
    while k < r.height
        invariant
            k <= r.height,
            area == buffer_area(buf),
            screen_ok(buffer_cells(buf), area),
            within(r, area),
            buffer_cells(buf) == rect_filled(start, area, r, k as nat, ch, fg, bg),
        decreases r.height - k,
    {
        fill_row(buf, r.x, r.y + k, r.width, ch, fg, bg);
        k = k + 1;
    }
}

/// Write `text` from `(x0, y)` rightwards, as far as it starts left of
/// `limit`. Returns the column after the last character written.
fn write_text(
    buf: &mut Buffer,
    x0: u16,
    y: u16,
    text: &Vec<char>,
    limit: u16,
    fg: Ink,
    bg: Ink,
    add: u16,
) -> (x_end: u16)
    requires
        screen_ok(buffer_cells(old(buf)), buffer_area(old(buf))),
        x0 <= limit,
        within(
            CellRect { x: x0, y, width: (limit - x0) as u16, height: 1 },
            buffer_area(old(buf)),
        ),
        add <= ALL_MODIFIERS,
    ensures
        buffer_area(final(buf)) == buffer_area(old(buf)),
        screen_ok(buffer_cells(final(buf)), buffer_area(final(buf))),
        buffer_cells(final(buf)) == text_put(
            buffer_cells(old(buf)),
            buffer_area(old(buf)),
            x0 as int,
            y as int,
            text@,
            limit as int,
            fg,
            bg,
            add,
            text@.len(),
        ),
        x_end == (if x0 + text@.len() < limit { x0 + text@.len() } else { limit as int }),
{
    let ghost area = buffer_area(buf);
    let ghost start = buffer_cells(buf);
    let mut x: u16 = x0;
    let mut k: usize = 0;
    while k < text.len()
        invariant
            k <= text.len(),
            x0 <= limit,
            add <= ALL_MODIFIERS,
            x == (if x0 + k < limit { x0 + k } else { limit as int }),
            area == buffer_area(buf),
            screen_ok(buffer_cells(buf), area),
            within(CellRect { x: x0, y, width: (limit - x0) as u16, height: 1 }, area),
            buffer_cells(buf) == text_put(
                start,
                area,
                x0 as int,
                y as int,
                text@,
                limit as int,
                fg,
                bg,
                add,
                k as nat,
            ),
        decreases text.len() - k,
    {
        if x < limit {
            proof {
                lemma_cell_pos(area, x as int, y as int);
            }
            put_cell(buf, x, y, text[k], fg, bg, add);
            x = x + 1;
        }
        k = k + 1;
    }
    x
}

// ── panes ────────────────────────────────────────────────────────────────────

/// The colours of the chrome.
#[derive(Clone, Copy, Debug)]
pub struct Theme {
    pub active_border: Rgb,
    pub inactive_border: Rgb,
    pub active_title: Rgb,
    pub inactive_title: Rgb,
    pub pane_bg: Rgb,
    pub bar_bg: Rgb,
    pub bar_fg: Rgb,
}

pub open spec fn rgb_ink(c: Rgb) -> Ink {
    Ink::Rgb(c.0, c.1, c.2)
}

fn ink_of(c: Rgb) -> (i: Ink)
    ensures
        i == rgb_ink(c),
{
    Ink::Rgb(c.0, c.1, c.2)
}

/// The part of `raw` that lies within `area`, if any.
pub open spec fn clipped(raw: CellRect, area: CellRect) -> Option<CellRect> {
    let x0 = if raw.x >= area.x { raw.x as int } else { area.x as int };
    let y0 = if raw.y >= area.y { raw.y as int } else { area.y as int };
    let x1 = if raw.x + raw.width <= area.x + area.width {
        raw.x + raw.width
    } else {
        area.x + area.width
    };
    let y1 = if raw.y + raw.height <= area.y + area.height {
        raw.y + raw.height
    } else {
        area.y + area.height
    };
    if x1 <= x0 || y1 <= y0 {
        None
    } else {
        Some(CellRect { x: x0 as u16, y: y0 as u16, width: (x1 - x0) as u16, height: (y1 - y0) as u16 })
    }
}

fn clip(raw: CellRect, area: CellRect) -> (r: Option<CellRect>)
    requires
        area.x as int + area.width as int <= 0xFFFF,
        area.y as int + area.height as int <= 0xFFFF,
        area.width as int * area.height as int <= 0xFFFF,
    ensures
        r == clipped(raw, area),
        r matches Some(c) ==> within(c, area) && c.width > 0 && c.height > 0,
{
    let x0: u16 = if raw.x >= area.x { raw.x } else { area.x };
    let y0: u16 = if raw.y >= area.y { raw.y } else { area.y };
    let rx: u32 = raw.x as u32 + raw.width as u32;
    let ry: u32 = raw.y as u32 + raw.height as u32;
    let ax: u32 = area.x as u32 + area.width as u32;
    let ay: u32 = area.y as u32 + area.height as u32;
    let x1: u16 = (if rx <= ax { rx } else { ax }) as u16;
    let y1: u16 = (if ry <= ay { ry } else { ay }) as u16;
    if x1 <= x0 || y1 <= y0 {
        return None;
    }
    assert((x1 - x0) * (y1 - y0) <= area.width * area.height) by (nonlinear_arith)
        requires
            0 <= x1 - x0 <= area.width,
            0 <= y1 - y0 <= area.height,
    ;
    Some(cell_rect(x0, y0, x1 - x0, y1 - y0))
}

/// The buffer after one pane was drawn into `r`: its bordered block with
/// the title cut to the room for it, emphasised if the pane has the focus;
/// then, if the block has an inside, a hole of blank cells without colour
/// for an embedded client, or a hint for a shell, of which no more
/// characters are handed on than a widget takes.
pub open spec fn pane_drawn(
    cells: Seq<ScreenCell>,
    area: CellRect,
    p: PaneView,
    r: CellRect,
    focused: bool,
    theme: Theme,
) -> Seq<ScreenCell> {
    let framed = block_drawn(
        cells,
        area,
        r,
        truncated(pane_title(p.content, p.id), title_room(r.width)),
        if focused {
            theme.active_border
        } else {
            theme.inactive_border
        },
        if focused {
            theme.active_title
        } else {
            theme.inactive_title
        },
        if focused {
            BOLD
        } else {
            0
        },
        theme.pane_bg,
    );
    let inner = bordered_inner(r);
    if inner.width > 0 && inner.height > 0 {
        match p.content {
            ContentView::Embedded { app_id } => rect_filled(
                framed,
                area,
                inner,
                inner.height as nat,
                ' ',
                Ink::Reset,
                Ink::Reset,
            ),
            ContentView::Shell { title } => line_drawn(
                framed,
                area,
                inner,
                leading(shell_hint(title), MAX_TEXT as int),
                theme.inactive_title,
            ),
            ContentView::Empty => framed,
        }
    } else {
        framed
    }
}

fn draw_pane(buf: &mut Buffer, pane: &Pane, r: CellRect, focused: bool, theme: &Theme)
    requires
        screen_ok(buffer_cells(old(buf)), buffer_area(old(buf))),
        within(r, buffer_area(old(buf))),
    ensures
        buffer_area(final(buf)) == buffer_area(old(buf)),
        screen_ok(buffer_cells(final(buf)), buffer_area(final(buf))),
        buffer_cells(final(buf)) == pane_drawn(
            buffer_cells(old(buf)),
            buffer_area(old(buf)),
            pane@,
            r,
            focused,
            *theme,
        ),
{
    let raw = title_label(&pane.content, pane.id);
    let room: usize = if r.width >= 4 { (r.width - 4) as usize } else { 0 };
    let room: usize = if room <= MAX_TEXT { room } else { MAX_TEXT };
    let title = truncate(raw.as_str(), room);
    assert(title@.len() <= MAX_TEXT);
    let border = if focused { theme.active_border } else { theme.inactive_border };
    let ink = if focused { theme.active_title } else { theme.inactive_title };
    let emphasis: u16 = if focused { BOLD } else { 0 };
    draw_block(buf, r, title.as_str(), border, ink, emphasis, theme.pane_bg);
    let inner = block_inner(r);
    if inner.width > 0 && inner.height > 0 {
        match &pane.content {
            PaneContent::Embedded { .. } => {
                fill_rect(buf, inner, ' ', Ink::Reset, Ink::Reset);
            },
            PaneContent::Shell { title } => {
                let hint = leading_text(hint_text(title.as_str()).as_str(), MAX_TEXT);
                proof {
                    let area = buffer_area(buf);
                    assert(r.height >= 3 && inner.width <= r.width);
                    assert(r.width as int * 3 <= area.width as int * area.height as int)
                        by (nonlinear_arith)
                        requires
                            r.width <= area.width,
                            3 <= r.height <= area.height,
                    ;
                }
                draw_line(buf, inner, hint.as_str(), theme.inactive_title);
            },
            PaneContent::Empty => {},
        }
    }
}

/// The focused pane of the active workspace, if it is shown fullscreen.
pub open spec fn fullscreen_pane(s: TwmView) -> Option<PaneId> {
    match s.active().focused {
        Some(id) => match pane_pos(s.panes, id) {
            Some(i) => if s.panes[i].fullscreen {
                Some(id)
            } else {
                None
            },
            None => None,
        },
        None => None,
    }
}

/// Where a pane is drawn at time `now_ms`: the fullscreen pane takes the
/// content area and hides the others; else each pane is drawn where it is,
/// as far as that is on the grid.
pub open spec fn pane_place(
    s: TwmView,
    fs: Option<PaneId>,
    p: PaneView,
    area: CellRect,
    now_ms: u64,
) -> Option<CellRect> {
    match fs {
        Some(f) => if p.id == f {
            clipped(s.content_rect(), area)
        } else {
            None
        },
        None => clipped(p.anim.current_at(now_ms), area),
    }
}

/// The buffer after the first `k` panes of the active workspace were drawn.
pub open spec fn panes_drawn(
    cells: Seq<ScreenCell>,
    area: CellRect,
    s: TwmView,
    theme: Theme,
    now_ms: u64,
    k: nat,
) -> Seq<ScreenCell>
    decreases k,
{
    if k == 0 {
        cells
    } else {
        let before = panes_drawn(cells, area, s, theme, now_ms, (k - 1) as nat);
        let id = s.active().panes[k - 1];
        match pane_pos(s.panes, id) {
            Some(i) => match pane_place(s, fullscreen_pane(s), s.panes[i], area, now_ms) {
                Some(r) => pane_drawn(
                    before,
                    area,
                    s.panes[i],
                    r,
                    s.active().focused == Some(id),
                    theme,
                ),
                None => before,
            },
            None => before,
        }
    }
}

// ── bar ──────────────────────────────────────────────────────────────────────

/// Text of the tab of workspace number `k`.
pub open spec fn tab_label(k: int) -> Seq<char> {
    seq![' '] + decimal(k as nat) + seq![' ']
}

/// Colours and emphasis of a workspace tab: the active one dark on the
/// accent colour and bold, an occupied one in the accent colour, an empty
/// one dim.
pub open spec fn tab_style(s: TwmView, theme: Theme, i: int) -> (Ink, Ink, u16) {
    if s.active_ws == i {
        (Ink::Black, rgb_ink(theme.active_border), BOLD)
    } else if s.workspaces[i].panes.len() > 0 {
        (rgb_ink(theme.active_border), rgb_ink(theme.bar_bg), 0u16)
    } else {
        (rgb_ink(theme.inactive_title), rgb_ink(theme.bar_bg), 0u16)
    }
}

pub const TAB_SEPARATOR: char = '\u{2502}';

/// The buffer and the next free column after the tabs of the first `k`
/// workspaces were written into the bar `b`, each followed by a separator,
/// as far as there is room.
pub open spec fn tabs_drawn(
    cells: Seq<ScreenCell>,
    area: CellRect,
    s: TwmView,
    theme: Theme,
    b: CellRect,
    k: nat,
) -> (Seq<ScreenCell>, int)
    decreases k,
{
    if k == 0 {
        (cells, b.x + 1)
    } else {
        let before = tabs_drawn(cells, area, s, theme, b, (k - 1) as nat);
        let right = b.x + b.width;
        let x = before.1;
        if x >= right {
            before
        } else {
            let style = tab_style(s, theme, k - 1);
            let label = tab_label(k as int);
            let written = text_put(
                before.0,
                area,
                x,
                b.y as int,
                label,
                right,
                style.0,
                style.1,
                style.2,
                label.len(),
            );
            let x1 = if x + label.len() < right {
                x + label.len()
            } else {
                right
            };
            if x1 < right {
                (
                    put(
                        written,
                        area,
                        x1,
                        b.y as int,
                        TAB_SEPARATOR,
                        rgb_ink(theme.inactive_title),
                        rgb_ink(theme.bar_bg),
                        0,
                    ),
                    x1 + 1,
                )
            } else {
                (written, x1)
            }
        }
    }
}

/// Text that names the layout in the middle of the bar.
pub open spec fn layout_text(s: TwmView) -> Seq<char> {
    " ["@ + s.active().layout.label_spec() + "] "@
}

/// Text of the clock at the right end of the bar.
pub open spec fn clock_label(clock: Seq<char>) -> Seq<char> {
    " "@ + clock + " "@
}

/// The buffer after the bar was drawn into its first row `b`: the
/// background, the workspace tabs from the left, the layout's name around
/// the middle if the bar is wider than it, and the clock at the right end
/// if it fits.
pub open spec fn bar_drawn(
    cells: Seq<ScreenCell>,
    area: CellRect,
    s: TwmView,
    theme: Theme,
    clock: Seq<char>,
    b: CellRect,
) -> Seq<ScreenCell> {
    let right = b.x + b.width;
    let base = row_filled(
        cells,
        area,
        b.x as int,
        b.y as int,
        b.width as nat,
        ' ',
        rgb_ink(theme.bar_fg),
        rgb_ink(theme.bar_bg),
    );
    let tabs = tabs_drawn(base, area, s, theme, b, WORKSPACES as nat).0;
    let lt = layout_text(s);
    let named = if lt.len() < b.width {
        text_put(
            tabs,
            area,
            b.x + sat_sub(b.width as int / 2, lt.len() as int / 2),
            b.y as int,
            lt,
            right,
            rgb_ink(theme.active_border),
            rgb_ink(theme.bar_bg),
            0,
            lt.len(),
        )
    } else {
        tabs
    };
    let ct = clock_label(clock);
    if ct.len() <= b.width {
        text_put(
            named,
            area,
            b.x + sat_sub(b.width as int, ct.len() as int),
            b.y as int,
            ct,
            right,
            rgb_ink(theme.bar_fg),
            rgb_ink(theme.bar_bg),
            0,
            ct.len(),
        )
    } else {
        named
    }
}

/// The whole chrome of the state `s` at time `now_ms` on a blank buffer of
/// the grid's size: the panes of the active workspace, then the bar.
pub open spec fn chrome_screen(s: TwmView, theme: Theme, clock: Seq<char>, now_ms: u64) -> Seq<
    ScreenCell,
> {
    let area = CellRect { x: 0, y: 0, width: s.cols, height: s.rows };
    let blank = Seq::new((s.cols as int * s.rows as int) as nat, |i: int| blank_screen_cell());
    let panes = panes_drawn(blank, area, s, theme, now_ms, s.active().panes.len());
    if s.bar_visible {
        match clipped(s.bar_rect(), area) {
            Some(b) => bar_drawn(panes, area, s, theme, clock, b),
            None => panes,
        }
    } else {
        panes
    }
}

fn text3(a: &str, b: &str, c: &str) -> (v: Vec<char>)
    ensures
        v@ == a@ + b@ + c@,
{
    let mut t = String::new();
    push_chars(&mut t, a);
    push_chars(&mut t, b);
    push_chars(&mut t, c);
    assert(t@ =~= a@ + b@ + c@);
    chars_of(t.as_str())
}

impl TwmState {
    pub open spec fn theme_spec(&self) -> Theme {
        Theme {
            active_border: self.active_border,
            inactive_border: self.inactive_border,
            active_title: self.active_title,
            inactive_title: self.inactive_title,
            pane_bg: self.pane_bg,
            bar_bg: self.bar_bg,
            bar_fg: self.bar_fg,
        }
    }

    pub fn theme(&self) -> (t: Theme)
        ensures
            t == self.theme_spec(),
    {
        Theme {
            active_border: self.active_border,
            inactive_border: self.inactive_border,
            active_title: self.active_title,
            inactive_title: self.inactive_title,
            pane_bg: self.pane_bg,
            bar_bg: self.bar_bg,
            bar_fg: self.bar_fg,
        }
    }

    fn fullscreen_id(&self) -> (fs: Option<PaneId>)
        requires
            self.wf(),
        ensures
            fs == fullscreen_pane(self@),
    {
        match self.workspaces[self.active_ws].focused {
            Some(id) => match find_pane(&self.panes, id) {
                Some(i) => if self.panes[i].fullscreen {
                    Some(id)
                } else {
                    None
                },
                None => None,
            },
            None => None,
        }
    }

    /// Draw the panes of the active workspace.
    fn render_panes(&self, buf: &mut Buffer, now_ms: u64)
        requires
            self.wf(),
            screen_ok(buffer_cells(old(buf)), buffer_area(old(buf))),
        ensures
            buffer_area(final(buf)) == buffer_area(old(buf)),
            screen_ok(buffer_cells(final(buf)), buffer_area(final(buf))),
            buffer_cells(final(buf)) == panes_drawn(
                buffer_cells(old(buf)),
                buffer_area(old(buf)),
                self@,
                self.theme_spec(),
                now_ms,
                self@.active().panes.len(),
            ),
    {
        let ghost area = buffer_area(buf);
        let ghost start = buffer_cells(buf);
        let theme = self.theme();
        let fs = self.fullscreen_id();
        let a: usize = self.active_ws;
        let focused = self.workspaces[a].focused;
        let n: usize = self.workspaces[a].panes.len();
        let content = self.content_rect();
        let mut k: usize = 0;
        while k < n
            invariant
                self.wf(),
                k <= n,
                a == self.active_ws,
                n == self.workspaces[a as int].panes.len(),
                focused == self@.active().focused,
                theme == self.theme_spec(),
                fs == fullscreen_pane(self@),
                content == self@.content_rect(),
                area == buffer_area(buf),
                screen_ok(buffer_cells(buf), area),
                buffer_cells(buf) == panes_drawn(start, area, self@, theme, now_ms, k as nat),
            decreases n - k,
        {
            let id: PaneId = self.workspaces[a].panes[k];
            match find_pane(&self.panes, id) {
                Some(i) => {
                    let place = match fs {
                        Some(f) => if self.panes[i].id == f {
                            clip(content, buffer_area_of(buf))
                        } else {
                            None
                        },
                        None => clip(self.panes[i].anim.current(now_ms), buffer_area_of(buf)),
                    };
                    match place {
                        Some(r) => {
                            let is_focused: bool = match focused {
                                Some(f) => f == id,
                                None => false,
                            };
                            draw_pane(buf, &self.panes[i], r, is_focused, &theme);
                        },
                        None => {},
                    }
                },
                None => {},
            }
            k = k + 1;
        }
    }

    /// Draw the status bar into the row `b`.
    fn render_bar(&self, buf: &mut Buffer, b: CellRect)
        requires
            self.wf(),
            screen_ok(buffer_cells(old(buf)), buffer_area(old(buf))),
            within(b, buffer_area(old(buf))),
            b.width > 0,
            b.height > 0,
        ensures
            buffer_area(final(buf)) == buffer_area(old(buf)),
            screen_ok(buffer_cells(final(buf)), buffer_area(final(buf))),
            buffer_cells(final(buf)) == bar_drawn(
                buffer_cells(old(buf)),
                buffer_area(old(buf)),
                self@,
                self.theme_spec(),
                self.bar_clock@,
                b,
            ),
    {
        let ghost area = buffer_area(buf);
        let theme = self.theme();
        let bar_bg = ink_of(theme.bar_bg);
        let bar_fg = ink_of(theme.bar_fg);
        let accent = ink_of(theme.active_border);
        let dim = ink_of(theme.inactive_title);
        let right: u16 = b.x + b.width;
        fill_row(buf, b.x, b.y, b.width, ' ', bar_fg, bar_bg);
        let ghost base = buffer_cells(buf);
        let mut x: u16 = b.x + 1;
        let mut k: usize = 0;
        while k < WORKSPACES
            invariant
                self.wf(),
                k <= WORKSPACES,
                theme == self.theme_spec(),
                bar_bg == rgb_ink(theme.bar_bg),
                accent == rgb_ink(theme.active_border),
                dim == rgb_ink(theme.inactive_title),
                right == b.x + b.width,
                b.x < x <= right || (x == right + 1 && k == 0 && b.width == 0),
                b.width > 0,
                b.height > 0,
                within(b, area),
                area == buffer_area(buf),
                screen_ok(buffer_cells(buf), area),
                (buffer_cells(buf), x as int) == tabs_drawn(base, area, self@, theme, b, k as nat),
            decreases WORKSPACES - k,
        {
            if x < right {
                let active: bool = k == self.active_ws;
                let occupied: bool = self.workspaces[k].panes.len() > 0;
                let (fg, bg, add) = if active {
                    (Ink::Black, accent, BOLD)
                } else if occupied {
                    (accent, bar_bg, 0u16)
                } else {
                    (dim, bar_bg, 0u16)
                };
                let mut label = String::new();
                push_char(&mut label, ' ');
                push_decimal(&mut label, (k + 1) as u64);
                push_char(&mut label, ' ');
                assert(label@ =~= tab_label(k + 1));
                let chars = chars_of(label.as_str());
                x = write_text(buf, x, b.y, &chars, right, fg, bg, add);
                if x < right {
                    proof {
                        lemma_cell_pos(area, x as int, b.y as int);
                    }
                    put_cell(buf, x, b.y, TAB_SEPARATOR, dim, bar_bg, 0);
                    x = x + 1;
                }
            }
            k = k + 1;
        }
        let lt = text3(" [", self.workspaces[self.active_ws].layout.label(), "] ");
        if lt.len() < b.width as usize {
            let ll: u16 = lt.len() as u16;
            let half: u16 = if b.width / 2 >= ll / 2 { b.width / 2 - ll / 2 } else { 0 };
            let _ = write_text(buf, b.x + half, b.y, &lt, right, accent, bar_bg, 0);
        }
        let ct = text3(" ", self.bar_clock.as_str(), " ");
        if ct.len() <= b.width as usize {
            let rl: u16 = ct.len() as u16;
            let _ = write_text(buf, b.x + (b.width - rl), b.y, &ct, right, bar_fg, bar_bg, 0);
        }
    }
}

// ── frame ────────────────────────────────────────────────────────────────────

/// The grid size for a viewport: as many whole cells as fit each way; the
/// size the grid has if a cell has no size.
pub open spec fn grid_for(s: TwmView, cell_w: u32, cell_h: u32, vp_w: u32, vp_h: u32) -> (int, int) {
    if cell_w > 0 && cell_h > 0 {
        (vp_w as int / cell_w as int, vp_h as int / cell_h as int)
    } else {
        (s.cols as int, s.rows as int)
    }
}

/// A frame can be built: the grid for the viewport has at most 65535 cells
/// and columns and rows, and its layout arithmetic stays within 16 bits.
pub open spec fn frame_ok(s: TwmView, cell_w: u32, cell_h: u32, vp_w: u32, vp_h: u32) -> bool {
    let g = grid_for(s, cell_w, cell_h, vp_w, vp_h);
    &&& g.0 <= 0xFFFF
    &&& g.1 <= 0xFFFF
    &&& g.0 * g.1 <= 0xFFFF
    &&& (TwmView { cols: g.0 as u16, rows: g.1 as u16, ..s }).fits()
}

/// The state in which a frame is drawn at time `now_ms`: resized to the
/// grid for the viewport if that differs from the grid it has, and laid out
/// again if anything changed since the last layout.
pub open spec fn frame_state(
    s: TwmView,
    cell_w: u32,
    cell_h: u32,
    vp_w: u32,
    vp_h: u32,
    now_ms: u64,
) -> TwmView {
    let g = grid_for(s, cell_w, cell_h, vp_w, vp_h);
    let sized = if g.0 != s.cols || g.1 != s.rows {
        s.resize(g.0 as u16, g.1 as u16, now_ms)
    } else {
        s
    };
    if sized.dirty {
        sized.reflow(now_ms)
    } else {
        sized
    }
}

impl TwmState {
    /// Build the draw commands of one frame of chrome. `clock_secs` is the
    /// time of day to show, in seconds, `now_ms` the time that animations go
    /// by. The grid is first fitted to the viewport: it never reaches beyond
    /// it.
    pub fn build_frame_cmds(
        &mut self,
        cell_w: u32,
        cell_h: u32,
        vp_w: u32,
        vp_h: u32,
        now_ms: u64,
        clock_secs: u64,
    ) -> (cmds: Vec<DrawCmd>)
        requires
            old(self).wf(),
            frame_ok(old(self)@, cell_w, cell_h, vp_w, vp_h),
        ensures
            final(self)@ == frame_state(old(self)@, cell_w, cell_h, vp_w, vp_h, now_ms),
            final(self).wf(),
            final(self).theme_spec() == old(self).theme_spec(),
            final(self).bar_clock@ == clock_of(clock_secs),
            cmd_views(cmds@) == grid_cmds(
                converted(
                    chrome_screen(
                        final(self)@,
                        final(self).theme_spec(),
                        clock_of(clock_secs),
                        now_ms,
                    ),
                ),
                final(self).cols as int,
                final(self).rows as nat,
                cell_w,
                cell_h,
                vp_w,
                vp_h,
            ),
            cell_w > 0 && cell_h > 0 ==> final(self).cols * cell_w <= vp_w && final(self).rows
                * cell_h <= vp_h,
    {
        self.bar_clock = clock_text(clock_secs);
        if cell_w > 0 && cell_h > 0 {
            let cols: u16 = (vp_w / cell_w) as u16;
            let rows: u16 = (vp_h / cell_h) as u16;
            proof {
                vstd::arithmetic::div_mod::lemma_fundamental_div_mod(vp_w as int, cell_w as int);
                vstd::arithmetic::div_mod::lemma_fundamental_div_mod(vp_h as int, cell_h as int);
                vstd::arithmetic::div_mod::lemma_mod_pos_bound(vp_w as int, cell_w as int);
                vstd::arithmetic::div_mod::lemma_mod_pos_bound(vp_h as int, cell_h as int);
                assert(cols * cell_w == cell_w * cols && rows * cell_h == cell_h * rows)
                    by (nonlinear_arith);
            }
            if cols != self.cols || rows != self.rows {
                self.resize(cols, rows, now_ms);
            }
        }
        proof {
            crate::twm_laws::lemma_resize_wf(
                old(self)@,
                grid_for(old(self)@, cell_w, cell_h, vp_w, vp_h).0 as u16,
                grid_for(old(self)@, cell_w, cell_h, vp_w, vp_h).1 as u16,
                now_ms,
            );
        }
        if self.dirty {
            self.reflow(now_ms);
        }
        let mut buf = new_buffer(self.cols, self.rows);
        let area = buffer_area_of(&buf);
        self.render_panes(&mut buf, now_ms);
        if self.bar_visible {
            match clip(self.bar_rect(), area) {
                Some(b) => self.render_bar(&mut buf, b),
                None => {},
            }
        }
        blit(&mut self.cells, &buf);
        self.cells.to_draw_cmds(cell_w, cell_h, vp_w, vp_h)
    }
}

impl TwmState {
    /// Whether a frame can be built for this viewport and cell size.
    pub fn frame_fits(&self, cell_w: u32, cell_h: u32, vp_w: u32, vp_h: u32) -> (b: bool)
        requires
            self.wf(),
        ensures
            b == frame_ok(self@, cell_w, cell_h, vp_w, vp_h),
    {
        if cell_w > 0 && cell_h > 0 {
            let cols: u32 = vp_w / cell_w;
            let rows: u32 = vp_h / cell_h;
            if cols > 0xFFFF || rows > 0xFFFF {
                return false;
            }
            assert(cols * rows <= 0xFFFF * 0xFFFF) by (nonlinear_arith)
                requires
                    cols <= 0xFFFF,
                    rows <= 0xFFFF,
            ;
            cols * rows <= 0xFFFF && self.has_room(cols as u16, rows as u16)
        } else {
            assert(self.cols * self.rows <= 0xFFFF * 0xFFFF) by (nonlinear_arith)
                requires
                    self.cols <= 0xFFFF,
                    self.rows <= 0xFFFF,
            ;
            self.cols as u32 * self.rows as u32 <= 0xFFFF && self.has_room(self.cols, self.rows)
        }
    }

    /// The draw commands of one frame, if a frame can be built for this
    /// viewport and cell size; else nothing changes.
    pub fn try_build_frame_cmds(
        &mut self,
        cell_w: u32,
        cell_h: u32,
        vp_w: u32,
        vp_h: u32,
        now_ms: u64,
        clock_secs: u64,
    ) -> (r: Option<Vec<DrawCmd>>)
        requires
            old(self).wf(),
        ensures
            final(self).wf(),
            r is Some <==> frame_ok(old(self)@, cell_w, cell_h, vp_w, vp_h),
            r is None ==> *final(self) == *old(self),
            r matches Some(cmds) ==> {
                &&& final(self)@ == frame_state(old(self)@, cell_w, cell_h, vp_w, vp_h, now_ms)
                &&& final(self).theme_spec() == old(self).theme_spec()
                &&& final(self).bar_clock@ == clock_of(clock_secs)
                &&& cell_w > 0 && cell_h > 0 ==> final(self).cols * cell_w <= vp_w
                &&& cell_w > 0 && cell_h > 0 ==> final(self).rows * cell_h <= vp_h
                &&& cmd_views(cmds@) == grid_cmds(
                    converted(
                        chrome_screen(
                            final(self)@,
                            final(self).theme_spec(),
                            clock_of(clock_secs),
                            now_ms,
                        ),
                    ),
                    final(self).cols as int,
                    final(self).rows as nat,
                    cell_w,
                    cell_h,
                    vp_w,
                    vp_h,
                )
            },
    {
        if self.frame_fits(cell_w, cell_h, vp_w, vp_h) {
            Some(self.build_frame_cmds(cell_w, cell_h, vp_w, vp_h, now_ms, clock_secs))
        } else {
            None
        }
    }
}

/// Build the draw commands of one frame of chrome for `state`.
pub fn build_frame_cmds(
    state: &mut TwmState,
    cell_w: u32,
    cell_h: u32,
    vp_w: u32,
    vp_h: u32,
    now_ms: u64,
    clock_secs: u64,
) -> (cmds: Vec<DrawCmd>)
    requires
        old(state).wf(),
        frame_ok(old(state)@, cell_w, cell_h, vp_w, vp_h),
    ensures
        final(state)@ == frame_state(old(state)@, cell_w, cell_h, vp_w, vp_h, now_ms),
        final(state).wf(),
        cmd_views(cmds@) == grid_cmds(
            converted(
                chrome_screen(
                    final(state)@,
                    final(state).theme_spec(),
                    clock_of(clock_secs),
                    now_ms,
                ),
            ),
            final(state).cols as int,
            final(state).rows as nat,
            cell_w,
            cell_h,
            vp_w,
            vp_h,
        ),
{
    state.build_frame_cmds(cell_w, cell_h, vp_w, vp_h, now_ms, clock_secs)
}

/// The area that a buffer covers.
fn buffer_area_of(buf: &Buffer) -> (r: CellRect)
    ensures
        r == buffer_area(buf),
{
    area_of(buf)
}

/// `Buffer::area`: the rectangle that the buffer covers.
#[verifier::external_body]
fn area_of(buf: &Buffer) -> (r: CellRect)
    ensures
        r == buffer_area(buf),
{
    CellRect { x: buf.area.x, y: buf.area.y, width: buf.area.width, height: buf.area.height }
}

} // verus!

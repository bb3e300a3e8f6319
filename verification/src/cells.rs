//! The character grid that the window manager's chrome is drawn into, and
//! its conversion to pixel draw commands.

use crate::pixelui::{cmd_views, lemma_cmd_views_push, Color, DrawCmd, DrawCmdView, Rect, Style};
use crate::text::push_char;
use vstd::prelude::*;

verus! {

/// A colour without alpha: red, green, blue.
pub type Rgb = (u8, u8, u8);

/// Default text colour of a cell.
pub open spec fn default_fg() -> Rgb {
    (205, 214, 244)
}

/// Default background colour of a cell.
pub open spec fn default_bg() -> Rgb {
    (30, 30, 46)
}

/// One rendered terminal cell.
#[derive(Clone, Copy, Debug)]
pub struct TwmCell {
    pub ch: char,
    pub fg: Rgb,
    pub bg: Rgb,
    pub bold: bool,
    pub italic: bool,
}

/// A blank cell in the default colours.
pub open spec fn blank_cell() -> TwmCell {
    TwmCell { ch: ' ', fg: default_fg(), bg: default_bg(), bold: false, italic: false }
}

impl Default for TwmCell {
    fn default() -> (c: TwmCell)
        ensures
            c == blank_cell(),
    {
        TwmCell { ch: ' ', fg: (205, 214, 244), bg: (30, 30, 46), bold: false, italic: false }
    }
}

/// Colour `i` of the 256-colour terminal palette: 16 named colours, a
/// 6 x 6 x 6 colour cube and 24 shades of grey.
pub open spec fn ansi256_spec(i: u8) -> Rgb {
    if i < 16 {
        ansi16_spec(i)
    } else if i < 232 {
        let v = (i - 16) as int;
        (cube_level(v / 36), cube_level((v / 6) % 6), cube_level(v % 6))
    } else {
        let l = (8 + (i - 232) * 10) as u8;
        (l, l, l)
    }
}

/// Intensity of step `x` of the colour cube.
pub open spec fn cube_level(x: int) -> u8 {
    if x == 0 {
        0
    } else {
        (55 + x * 40) as u8
    }
}

pub open spec fn ansi16_spec(i: u8) -> Rgb {
    if i == 0 {
        (0, 0, 0)
    } else if i == 1 {
        (128, 0, 0)
    } else if i == 2 {
        (0, 128, 0)
    } else if i == 3 {
        (128, 128, 0)
    } else if i == 4 {
        (0, 0, 128)
    } else if i == 5 {
        (128, 0, 128)
    } else if i == 6 {
        (0, 128, 128)
    } else if i == 7 {
        (192, 192, 192)
    } else if i == 8 {
        (128, 128, 128)
    } else if i == 9 {
        (255, 0, 0)
    } else if i == 10 {
        (0, 255, 0)
    } else if i == 11 {
        (255, 255, 0)
    } else if i == 12 {
        (0, 0, 255)
    } else if i == 13 {
        (255, 0, 255)
    } else if i == 14 {
        (0, 255, 255)
    } else {
        (255, 255, 255)
    }
}

fn cube_step(x: u8) -> (l: u8)
    requires
        x < 6,
    ensures
        l == cube_level(x as int),
{
    if x == 0 {
        0
    } else {
        55 + x * 40
    }
}

pub fn ansi256(i: u8) -> (c: Rgb)
    ensures
        c == ansi256_spec(i),
{
    if i < 16 {
        match i {
            0 => (0, 0, 0),
            1 => (128, 0, 0),
            2 => (0, 128, 0),
            3 => (128, 128, 0),
            4 => (0, 0, 128),
            5 => (128, 0, 128),
            6 => (0, 128, 128),
            7 => (192, 192, 192),
            8 => (128, 128, 128),
            9 => (255, 0, 0),
            10 => (0, 255, 0),
            11 => (255, 255, 0),
            12 => (0, 0, 255),
            13 => (255, 0, 255),
            14 => (0, 255, 255),
            _ => (255, 255, 255),
        }
    } else if i < 232 {
        let v: u8 = i - 16;
        (cube_step(v / 36), cube_step((v / 6) % 6), cube_step(v % 6))
    } else {
        let l: u8 = 8 + (i - 232) * 10;
        (l, l, l)
    }
}

// ── cell grid ────────────────────────────────────────────────────────────────

/// Flat cell grid, row by row.
pub struct CellBuffer {
    pub cols: u16,
    pub rows: u16,
    pub cells: Vec<TwmCell>,
}

/// Draw commands of one cell whose visible part is `w` by `h` pixels at
/// `(px, py)`: its background, unless the cell is a hole (a space on pure
/// black), then its character, unless that is a space or NUL.
pub open spec fn cell_cmds(c: TwmCell, px: u32, py: u32, w: u32, h: u32, cell_w: u32) -> Seq<
    DrawCmdView,
> {
    (if c.bg == (0u8, 0u8, 0u8) && c.ch == ' ' {
        Seq::<DrawCmdView>::empty()
    } else {
        seq![
            DrawCmdView::FillRect {
                rect: Rect { x: px, y: py, w, h },
                color: Color(c.bg.0, c.bg.1, c.bg.2, 255),
            },
        ]
    }) + (if c.ch == ' ' || c.ch == '\0' {
        Seq::<DrawCmdView>::empty()
    } else {
        seq![
            DrawCmdView::Text {
                x: px,
                y: py,
                text: seq![c.ch],
                style: Style {
                    fg: Color(c.fg.0, c.fg.1, c.fg.2, 255),
                    bg: Color(0, 0, 0, 0),
                    bold: c.bold,
                    italic: c.italic,
                },
                max_width: Some(cell_w),
            },
        ]
    })
}

/// Draw commands of the cell in column `col` of row `row`: none if the cell
/// starts outside the viewport, else those of its visible part.
pub open spec fn placed_cmds(
    c: TwmCell,
    col: int,
    row: int,
    cell_w: u32,
    cell_h: u32,
    vp_w: u32,
    vp_h: u32,
) -> Seq<DrawCmdView> {
    let px = col * cell_w;
    let py = row * cell_h;
    if px >= vp_w || py >= vp_h {
        Seq::empty()
    } else {
        cell_cmds(
            c,
            px as u32,
            py as u32,
            if cell_w <= vp_w - px {
                cell_w
            } else {
                (vp_w - px) as u32
            },
            if cell_h <= vp_h - py {
                cell_h
            } else {
                (vp_h - py) as u32
            },
            cell_w,
        )
    }
}

/// Draw commands of the first `k` cells of row `row`.
pub open spec fn row_cmds(
    cells: Seq<TwmCell>,
    cols: int,
    row: int,
    k: nat,
    cell_w: u32,
    cell_h: u32,
    vp_w: u32,
    vp_h: u32,
) -> Seq<DrawCmdView>
    decreases k,
{
    if k == 0 {
        Seq::empty()
    } else {
        row_cmds(cells, cols, row, (k - 1) as nat, cell_w, cell_h, vp_w, vp_h) + placed_cmds(
            cells[row * cols + (k - 1)],
            k - 1,
            row,
            cell_w,
            cell_h,
            vp_w,
            vp_h,
        )
    }
}

/// Draw commands of the first `r` rows.
pub open spec fn grid_cmds(
    cells: Seq<TwmCell>,
    cols: int,
    r: nat,
    cell_w: u32,
    cell_h: u32,
    vp_w: u32,
    vp_h: u32,
) -> Seq<DrawCmdView>
    decreases r,
{
    if r == 0 {
        Seq::empty()
    } else {
        grid_cmds(cells, cols, (r - 1) as nat, cell_w, cell_h, vp_w, vp_h) + row_cmds(
            cells,
            cols,
            r - 1,
            cols as nat,
            cell_w,
            cell_h,
            vp_w,
            vp_h,
        )
    }
}

pub proof fn lemma_cell_index(cols: int, rows: int, col: int, row: int)
    requires
        0 <= col < cols,
        0 <= row < rows,
    ensures
        0 <= row * cols + col < cols * rows,
{
    assert(0 <= row * cols) by (nonlinear_arith)
        requires
            0 <= row,
            0 <= cols,
    ;
    assert((row + 1) * cols <= rows * cols) by (nonlinear_arith)
        requires
            row + 1 <= rows,
            0 <= cols,
    ;
    assert((row + 1) * cols == row * cols + cols) by (nonlinear_arith);
    assert(rows * cols == cols * rows) by (nonlinear_arith);
}

impl CellBuffer {
    /// The grid holds one cell for each position.
    pub open spec fn wf(&self) -> bool {
        self.cells.len() == self.cols as int * self.rows as int
    }

    /// A grid of default cells.
    pub fn new(cols: u16, rows: u16) -> (b: CellBuffer)
        ensures
            b.wf(),
            b.cols == cols,
            b.rows == rows,
            forall|i: int| 0 <= i < b.cells.len() ==> #[trigger] b.cells[i] == blank_cell(),
    {
        assert(cols * rows <= 0xFFFF * 0xFFFF) by (nonlinear_arith)
            requires
                cols <= 0xFFFF,
                rows <= 0xFFFF,
        ;
        let n: usize = cols as usize * rows as usize;
        CellBuffer { cols, rows, cells: vec![TwmCell::default(); n] }
    }

    /// Change the grid's size. Cells are kept in storage order as far as
    /// they fit; new ones are default cells.
    pub fn resize(&mut self, cols: u16, rows: u16)
        ensures
            final(self).wf(),
            final(self).cols == cols,
            final(self).rows == rows,
            forall|i: int|
                0 <= i < final(self).cells.len() ==> #[trigger] final(self).cells[i] == (if i < old(
                    self,
                ).cells.len() {
                    old(self).cells[i]
                } else {
                    blank_cell()
                }),
    {
        assert(cols * rows <= 0xFFFF * 0xFFFF) by (nonlinear_arith)
            requires
                cols <= 0xFFFF,
                rows <= 0xFFFF,
        ;
        let n: usize = cols as usize * rows as usize;
        let ghost before = self.cells@;
        self.cols = cols;
        self.rows = rows;
        self.cells.resize(n, TwmCell::default());
        proof {
            assert forall|i: int| 0 <= i < self.cells.len() implies #[trigger] self.cells[i] == (if i
                < before.len() {
                before[i]
            } else {
                blank_cell()
            }) by {
                if n > before.len() && i < before.len() {
                    assert(self.cells@.subrange(0, before.len() as int)[i] == before[i]);
                }
            }
        }
    }

    /// Pixel draw commands for the grid, row by row: for each cell that
    /// starts inside the viewport its background clipped to the viewport,
    /// then its character.
    pub fn to_draw_cmds(&self, cell_w: u32, cell_h: u32, vp_w: u32, vp_h: u32) -> (cmds: Vec<
        DrawCmd,
    >)
        requires
            self.wf(),
        ensures
            cmd_views(cmds@) == grid_cmds(
                self.cells@,
                self.cols as int,
                self.rows as nat,
                cell_w,
                cell_h,
                vp_w,
                vp_h,
            ),
    {
        let mut cmds: Vec<DrawCmd> = Vec::new();
        assert(cmd_views(cmds@) =~= Seq::<DrawCmdView>::empty());
        let mut row: u16 = 0;
        while row < self.rows
            invariant
                self.wf(),
                row <= self.rows,
                cmd_views(cmds@) == grid_cmds(
                    self.cells@,
                    self.cols as int,
                    row as nat,
                    cell_w,
                    cell_h,
                    vp_w,
                    vp_h,
                ),
            decreases self.rows - row,
        {
            let ghost done = cmd_views(cmds@);
            let mut col: u16 = 0;
            assert(done + Seq::<DrawCmdView>::empty() =~= done);
            while col < self.cols
                invariant
                    self.wf(),
                    row < self.rows,
                    col <= self.cols,
                    cmd_views(cmds@) == done + row_cmds(
                        self.cells@,
                        self.cols as int,
                        row as int,
                        col as nat,
                        cell_w,
                        cell_h,
                        vp_w,
                        vp_h,
                    ),
                decreases self.cols - col,
            {
                let ghost so_far = cmd_views(cmds@);
                let ghost here = row_cmds(
                    self.cells@,
                    self.cols as int,
                    row as int,
                    col as nat,
                    cell_w,
                    cell_h,
                    vp_w,
                    vp_h,
                );
                proof {
                    lemma_cell_index(self.cols as int, self.rows as int, col as int, row as int);
                    assert(row * self.cols <= 0xFFFF * 0xFFFF) by (nonlinear_arith)
                        requires
                            0 <= row <= 0xFFFF,
                            0 <= self.cols <= 0xFFFF,
                    ;
                    assert(col * cell_w <= 0xFFFF * 0xFFFF_FFFF && row * cell_h <= 0xFFFF
                        * 0xFFFF_FFFF) by (nonlinear_arith)
                        requires
                            0 <= col <= 0xFFFF,
                            0 <= row <= 0xFFFF,
                            0 <= cell_w <= 0xFFFF_FFFF,
                            0 <= cell_h <= 0xFFFF_FFFF,
                    ;
                }
                let cell: TwmCell = self.cells[row as usize * self.cols as usize + col as usize];
                let px: u64 = col as u64 * cell_w as u64;
                let py: u64 = row as u64 * cell_h as u64;
                if px < vp_w as u64 && py < vp_h as u64 {
                    let x: u32 = px as u32;
                    let y: u32 = py as u32;
                    let w: u32 = if cell_w <= vp_w - x { cell_w } else { vp_w - x };
                    let h: u32 = if cell_h <= vp_h - y { cell_h } else { vp_h - y };
                    let (br, bg, bb) = cell.bg;
                    if !(br == 0 && bg == 0 && bb == 0 && cell.ch == ' ') {
                        let fill = DrawCmd::FillRect {
                            rect: Rect::new(x, y, w, h),
                            color: Color(br, bg, bb, 255),
                        };
                        proof {
                            lemma_cmd_views_push(cmds@, fill);
                        }
                        cmds.push(fill);
                    }
                    if cell.ch != ' ' && cell.ch != '\0' {
                        let (fr, fg, fb) = cell.fg;
                        let mut text = String::new();
                        push_char(&mut text, cell.ch);
                        assert(text@ =~= seq![cell.ch]);
                        let glyph = DrawCmd::Text {
                            x,
                            y,
                            text,
                            style: Style {
                                fg: Color(fr, fg, fb, 255),
                                bg: Color(0, 0, 0, 0),
                                bold: cell.bold,
                                italic: cell.italic,
                            },
                            max_width: Some(cell_w),
                        };
                        proof {
                            lemma_cmd_views_push(cmds@, glyph);
                        }
                        cmds.push(glyph);
                    }
                }
                proof {
                    let placed = placed_cmds(
                        cell,
                        col as int,
                        row as int,
                        cell_w,
                        cell_h,
                        vp_w,
                        vp_h,
                    );
                    assert(cmd_views(cmds@) =~= so_far + placed);
                    assert(done + (here + placed) =~= (done + here) + placed);
                }
                col = col + 1;
            }
            row = row + 1;
        }
        cmds
    }
}

// ── the viewport ─────────────────────────────────────────────────────────────

/// A command of the grid stays inside the viewport: a filled rectangle
/// lies within it, and a character starts within it. With `whole`, the
/// character's whole cell lies within it.
pub open spec fn inside_viewport(
    c: DrawCmdView,
    cell_w: u32,
    cell_h: u32,
    vp_w: u32,
    vp_h: u32,
    whole: bool,
) -> bool {
    match c {
        DrawCmdView::FillRect { rect, color } => rect.x + rect.w <= vp_w && rect.y + rect.h <= vp_h,
        DrawCmdView::Text { x, y, text, style, max_width } => x < vp_w && y < vp_h && max_width
            == Some(cell_w) && (whole ==> x + cell_w <= vp_w && y + cell_h <= vp_h),
        _ => false,
    }
}

pub open spec fn all_inside(
    cmds: Seq<DrawCmdView>,
    cell_w: u32,
    cell_h: u32,
    vp_w: u32,
    vp_h: u32,
    whole: bool,
) -> bool {
    forall|i: int|
        0 <= i < cmds.len() ==> inside_viewport(#[trigger] cmds[i], cell_w, cell_h, vp_w, vp_h, whole)
}

proof fn lemma_placed_inside(
    c: TwmCell,
    col: int,
    row: int,
    cell_w: u32,
    cell_h: u32,
    vp_w: u32,
    vp_h: u32,
    whole: bool,
)
    requires
        0 <= col,
        0 <= row,
        whole ==> (col + 1) * cell_w <= vp_w && (row + 1) * cell_h <= vp_h,
    ensures
        all_inside(placed_cmds(c, col, row, cell_w, cell_h, vp_w, vp_h), cell_w, cell_h, vp_w, vp_h, whole),
{
    assert(0 <= col * cell_w && 0 <= row * cell_h) by (nonlinear_arith)
        requires
            0 <= col,
            0 <= row,
            0 <= cell_w,
            0 <= cell_h,
    ;
    assert((col + 1) * cell_w == col * cell_w + cell_w && (row + 1) * cell_h == row * cell_h
        + cell_h) by (nonlinear_arith);
}

proof fn lemma_row_inside(
    cells: Seq<TwmCell>,
    cols: int,
    row: int,
    k: nat,
    cell_w: u32,
    cell_h: u32,
    vp_w: u32,
    vp_h: u32,
    whole: bool,
)
    requires
        0 <= row,
        whole ==> k * cell_w <= vp_w && (row + 1) * cell_h <= vp_h,
    ensures
        all_inside(
            row_cmds(cells, cols, row, k, cell_w, cell_h, vp_w, vp_h),
            cell_w,
            cell_h,
            vp_w,
            vp_h,
            whole,
        ),
    decreases k,
{
    if k > 0 {
        assert((k - 1) * cell_w <= k * cell_w) by (nonlinear_arith)
            requires
                k >= 1,
                cell_w >= 0,
        ;
        lemma_row_inside(cells, cols, row, (k - 1) as nat, cell_w, cell_h, vp_w, vp_h, whole);
        lemma_placed_inside(cells[row * cols + (k - 1)], k - 1, row, cell_w, cell_h, vp_w, vp_h, whole);
    }
}

/// The draw commands of a grid touch no pixel outside the viewport: every
/// background lies within it and every character starts within it. Where
/// the grid is no larger than the viewport, every character's cell lies
/// within it as well.
pub proof fn law_grid_in_viewport(
    cells: Seq<TwmCell>,
    cols: u16,
    r: nat,
    cell_w: u32,
    cell_h: u32,
    vp_w: u32,
    vp_h: u32,
    whole: bool,
)
    requires
        whole ==> cols * cell_w <= vp_w && r * cell_h <= vp_h,
    ensures
        all_inside(
            grid_cmds(cells, cols as int, r, cell_w, cell_h, vp_w, vp_h),
            cell_w,
            cell_h,
            vp_w,
            vp_h,
            whole,
        ),
    decreases r,
{
    if r > 0 {
        assert((r - 1) * cell_h <= r * cell_h) by (nonlinear_arith)
            requires
                r >= 1,
                cell_h >= 0,
        ;
        law_grid_in_viewport(cells, cols, (r - 1) as nat, cell_w, cell_h, vp_w, vp_h, whole);
        lemma_row_inside(cells, cols as int, r - 1, cols as nat, cell_w, cell_h, vp_w, vp_h, whole);
    }
}

} // verus!

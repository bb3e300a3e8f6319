//! From draw commands to the instances that the GPU draws: background
//! quads and glyph quads.

use crate::atlas::{char_key, id_key, GlyphAtlas, GlyphInfo};
use crate::pixelui::{cmd_views, Color, DrawCmd, DrawCmdView};
use crate::shaper::{
    run_views, runs_of, segment_str, shaped_glyphs, styled_cells, RunView, ShapedGlyph, Shaper,
};
use crate::text::chars_of;
use vstd::prelude::*;

verus! {

broadcast use vstd::std_specs::hash::group_hash_axioms;

/// A filled quad, in pixels.
#[derive(Clone, Copy, Debug, PartialEq, Eq, Structural)]
pub struct BgInst {
    pub x: i64,
    pub y: i64,
    pub w: i64,
    pub h: i64,
    pub color: Color,
}

/// A glyph quad: where it goes, in pixels, which part of the atlas it
/// shows, in half texels from corner to corner, and its colour.
#[derive(Clone, Copy, Debug, PartialEq, Eq, Structural)]
pub struct GlyphInst {
    pub x: i64,
    pub y: i64,
    pub w: i32,
    pub h: i32,
    pub u0: u64,
    pub v0: u64,
    pub u1: u64,
    pub v1: u64,
    pub fg: Color,
}

// ── backgrounds ──────────────────────────────────────────────────────────────

/// Width of the background of a text: its characters times the cell width,
/// but no more than the text's maximal width (nor than a quad can be wide).
pub open spec fn text_bg_width(len: int, cell_w: u32, max_w: Option<u32>) -> int {
    let est = if len * cell_w <= i64::MAX {
        len * cell_w
    } else {
        i64::MAX as int
    };
    match max_w {
        Some(m) => if (m as int) < est {
            m as int
        } else {
            est
        },
        None => est,
    }
}

/// The background quads of one command. A fill without colour draws
/// nothing; an outline is four bars; a line is one pixel thick; a text has
/// a background if its style has one.
pub open spec fn bg_of(cmd: DrawCmdView, cell_w: u32, cell_h: u32) -> Seq<BgInst> {
    match cmd {
        DrawCmdView::FillRect { rect, color } => if color == Color(0, 0, 0, 0) {
            Seq::empty()
        } else {
            seq![BgInst { x: rect.x as i64, y: rect.y as i64, w: rect.w as i64, h: rect.h as i64, color }]
        },
        DrawCmdView::StrokeRect { rect, color, thickness } => seq![
            BgInst { x: rect.x as i64, y: rect.y as i64, w: rect.w as i64, h: thickness as i64, color },
            BgInst {
                x: rect.x as i64,
                y: (rect.y + rect.h - thickness) as i64,
                w: rect.w as i64,
                h: thickness as i64,
                color,
            },
            BgInst { x: rect.x as i64, y: rect.y as i64, w: thickness as i64, h: rect.h as i64, color },
            BgInst {
                x: (rect.x + rect.w - thickness) as i64,
                y: rect.y as i64,
                w: thickness as i64,
                h: rect.h as i64,
                color,
            },
        ],
        DrawCmdView::HLine { x, y, w, color } => seq![
            BgInst { x: x as i64, y: y as i64, w: w as i64, h: 1, color },
        ],
        DrawCmdView::VLine { x, y, h, color } => seq![
            BgInst { x: x as i64, y: y as i64, w: 1, h: h as i64, color },
        ],
        DrawCmdView::Text { x, y, text, style, max_width } => if style.bg == Color(0, 0, 0, 0) {
            Seq::empty()
        } else {
            seq![
                BgInst {
                    x: x as i64,
                    y: y as i64,
                    w: text_bg_width(text.len() as int, cell_w, max_width) as i64,
                    h: cell_h as i64,
                    color: style.bg,
                },
            ]
        },
    }
}

/// The background quads of the first `k` commands.
pub open spec fn backgrounds(cmds: Seq<DrawCmdView>, cell_w: u32, cell_h: u32, k: nat) -> Seq<BgInst>
    decreases k,
{
    if k == 0 || k > cmds.len() {
        Seq::empty()
    } else {
        backgrounds(cmds, cell_w, cell_h, (k - 1) as nat) + bg_of(cmds[k - 1], cell_w, cell_h)
    }
}

/// The background quads of a list of draw commands, in command order.
pub fn background_instances(cmds: &Vec<DrawCmd>, cell_w: u32, cell_h: u32) -> (out: Vec<BgInst>)
    ensures
        out@ == backgrounds(cmd_views(cmds@), cell_w, cell_h, cmds@.len()),
{
    let mut out: Vec<BgInst> = Vec::new();
    let mut k: usize = 0;
    assert(out@ =~= backgrounds(cmd_views(cmds@), cell_w, cell_h, 0));
    while k < cmds.len()
        invariant
            k <= cmds.len(),
            out@ == backgrounds(cmd_views(cmds@), cell_w, cell_h, k as nat),
        decreases cmds.len() - k,
    {
        let ghost before = out@;
        let ghost view = cmd_views(cmds@)[k as int];
        assert(view == cmds@[k as int]@);
        match &cmds[k] {
            DrawCmd::FillRect { rect, color } => {
                if *color != Color::reset() {
                    out.push(
                        BgInst {
                            x: rect.x as i64,
                            y: rect.y as i64,
                            w: rect.w as i64,
                            h: rect.h as i64,
                            color: *color,
                        },
                    );
                }
            },
            DrawCmd::StrokeRect { rect, color, thickness } => {
                let (x, y, w, h, t): (i64, i64, i64, i64, i64) = (
                    rect.x as i64,
                    rect.y as i64,
                    rect.w as i64,
                    rect.h as i64,
                    *thickness as i64,
                );
                out.push(BgInst { x, y, w, h: t, color: *color });
                out.push(BgInst { x, y: y + h - t, w, h: t, color: *color });
                out.push(BgInst { x, y, w: t, h, color: *color });
                out.push(BgInst { x: x + w - t, y, w: t, h, color: *color });
            },
            DrawCmd::HLine { x, y, w, color } => {
                out.push(BgInst { x: *x as i64, y: *y as i64, w: *w as i64, h: 1, color: *color });
            },
            DrawCmd::VLine { x, y, h, color } => {
                out.push(BgInst { x: *x as i64, y: *y as i64, w: 1, h: *h as i64, color: *color });
            },
            DrawCmd::Text { x, y, text, style, max_width } => {
                if style.bg != Color::reset() {
                    let n: usize = text.as_str().unicode_len();
                    assert(0 <= n * cell_w <= 0xFFFF_FFFF_FFFF_FFFF * 0xFFFF_FFFF) by (nonlinear_arith)
                        requires
                            0 <= n <= 0xFFFF_FFFF_FFFF_FFFF,
                            0 <= cell_w <= 0xFFFF_FFFF,
                    ;
                    let est: u128 = n as u128 * cell_w as u128;
                    let w: i64 = match max_width {
                        Some(m) => if (*m as u128) < est { *m as i64 } else { est as i64 },
                        None => if est <= 0x7FFF_FFFF_FFFF_FFFF { est as i64 } else { 0x7FFF_FFFF_FFFF_FFFF },
                    };
                    out.push(BgInst { x: *x as i64, y: *y as i64, w, h: cell_h as i64, color: style.bg });
                }
            },
        }
        proof {
            assert(out@ =~= before + bg_of(view, cell_w, cell_h));
        }
        k = k + 1;
    }
    out
}

// ── glyphs ───────────────────────────────────────────────────────────────────

/// A run of text ready to be laid out: its characters if it is synthetic,
/// else its shaped glyphs.
pub struct ShapedRun {
    pub synthetic: bool,
    pub bold: bool,
    pub italic: bool,
    pub chars: Vec<char>,
    pub glyphs: Vec<ShapedGlyph>,
}

pub struct ShapedRunView {
    pub synthetic: bool,
    pub bold: bool,
    pub italic: bool,
    pub chars: Seq<char>,
    pub glyphs: Seq<ShapedGlyph>,
}

impl View for ShapedRun {
    type V = ShapedRunView;

    open spec fn view(&self) -> ShapedRunView {
        ShapedRunView {
            synthetic: self.synthetic,
            bold: self.bold,
            italic: self.italic,
            chars: self.chars@,
            glyphs: self.glyphs@,
        }
    }
}

pub open spec fn shaped_run_views(runs: Seq<ShapedRun>) -> Seq<ShapedRunView> {
    Seq::new(runs.len(), |i: int| runs[i]@)
}

/// The run `r`, shaped with the font if it is not synthetic.
pub open spec fn shaped_run(r: RunView, font: Seq<u8>) -> ShapedRunView {
    ShapedRunView {
        synthetic: r.synthetic,
        bold: r.bold,
        italic: r.italic,
        chars: r.text,
        glyphs: if r.synthetic {
            Seq::empty()
        } else {
            shaped_glyphs(font, r.text)
        },
    }
}

/// The runs of a text of one style, shaped with the font.
pub open spec fn shaped_text(font: Seq<u8>, text: Seq<char>, bold: bool, italic: bool) -> Seq<
    ShapedRunView,
> {
    let runs = runs_of(styled_cells(text, bold, italic), text.len());
    Seq::new(runs.len(), |i: int| shaped_run(runs[i], font))
}

/// Split a text of one style into runs and shape those that go through
/// the font.
pub fn shape_text(shaper: &Shaper, text: &str, bold: bool, italic: bool) -> (out: Vec<ShapedRun>)
    ensures
        shaped_run_views(out@) == shaped_text(shaper.font_data(), text@, bold, italic),
{
    let runs = segment_str(text, bold, italic);
    let ghost views = runs_of(styled_cells(text@, bold, italic), text@.len());
    let mut out: Vec<ShapedRun> = Vec::new();
    let mut i: usize = 0;
    while i < runs.len()
        invariant
            i <= runs.len(),
            run_views(runs@) == views,
            out.len() == i,
            forall|j: int|
                0 <= j < i ==> (#[trigger] out[j])@ == shaped_run(views[j], shaper.font_data()),
        decreases runs.len() - i,
    {
        assert(views[i as int] == runs@[i as int]@);
        let chars = chars_of(runs[i].text.as_str());
        let glyphs: Vec<ShapedGlyph> = if runs[i].synthetic {
            Vec::new()
        } else {
            shaper.shape(runs[i].text.as_str())
        };
        out.push(
            ShapedRun {
                synthetic: runs[i].synthetic,
                bold: runs[i].bold,
                italic: runs[i].italic,
                chars,
                glyphs,
            },
        );
        i = i + 1;
    }
    assert(shaped_run_views(out@) =~= shaped_text(shaper.font_data(), text@, bold, italic));
    out
}

/// Furthest that the pen goes in either direction.
pub const PEN_LIMIT: i128 = 0x4000_0000_0000_0000;

pub open spec fn clamp_pen(v: int) -> int {
    if v > PEN_LIMIT {
        PEN_LIMIT as int
    } else if v < -PEN_LIMIT {
        -PEN_LIMIT as int
    } else {
        v
    }
}

/// The pen while a text is laid out: where the next glyph goes, whether
/// the text ran into its maximal width, and the quads so far.
pub struct Pen {
    pub px: int,
    pub stopped: bool,
    pub out: Seq<GlyphInst>,
}

/// The quad of a glyph at `(x, y)`.
pub open spec fn quad(g: GlyphInfo, x: int, y: int, fg: Color) -> GlyphInst {
    GlyphInst {
        x: x as i64,
        y: y as i64,
        w: g.width,
        h: g.height,
        u0: g.uv_x as u64,
        v0: g.uv_y as u64,
        u1: (g.uv_x + g.uv_w) as u64,
        v1: (g.uv_y + g.uv_h) as u64,
        fg,
    }
}

/// What a cache holds for a key; nothing if it was never asked.
pub open spec fn lookup(cache: Map<u64, Option<GlyphInfo>>, key: u64) -> Option<GlyphInfo> {
    if cache.contains_key(key) {
        cache[key]
    } else {
        None
    }
}

/// The pen has reached the text's maximal width.
pub open spec fn past_limit(px: int, x0: u32, max_w: Option<u32>) -> bool {
    max_w matches Some(m) && px - x0 >= m
}

/// The pen after one synthetic character: the character's quad flush at
/// the pen, if it has a glyph with ink, and the pen one cell on.
pub open spec fn step_cell(
    pen: Pen,
    g: Option<GlyphInfo>,
    x0: u32,
    y: u32,
    max_w: Option<u32>,
    cell_w: u32,
    fg: Color,
) -> Pen {
    if pen.stopped {
        pen
    } else if past_limit(pen.px, x0, max_w) {
        Pen { stopped: true, ..pen }
    } else {
        Pen {
            px: clamp_pen(pen.px + cell_w),
            stopped: false,
            out: match g {
                Some(i) => if i.width > 0 && i.height > 0 {
                    pen.out.push(quad(i, pen.px, y as int, fg))
                } else {
                    pen.out
                },
                None => pen.out,
            },
        }
    }
}

/// The pen after one shaped glyph: the glyph's quad at its bearings from
/// the pen and the baseline, if it has ink, and the pen on by the glyph's
/// advance for each character it stands for; by a cell for each if the
/// atlas has no glyph.
pub open spec fn step_glyph(
    pen: Pen,
    g: Option<GlyphInfo>,
    cluster: int,
    x0: u32,
    y: u32,
    ascender: i32,
    max_w: Option<u32>,
    cell_w: u32,
    fg: Color,
) -> Pen {
    if pen.stopped {
        pen
    } else if past_limit(pen.px, x0, max_w) {
        Pen { stopped: true, ..pen }
    } else {
        match g {
            Some(i) => Pen {
                px: clamp_pen(pen.px + i.advance * cluster),
                stopped: false,
                out: if i.width > 0 && i.height > 0 {
                    pen.out.push(quad(i, pen.px + i.bearing_x, y + (ascender - i.bearing_y), fg))
                } else {
                    pen.out
                },
            },
            None => Pen { px: clamp_pen(pen.px + cell_w * cluster), stopped: false, out: pen.out },
        }
    }
}

/// The pen after the first `k` characters of a synthetic run.
pub open spec fn lay_cells(
    pen: Pen,
    chars: Seq<char>,
    cache: Map<u64, Option<GlyphInfo>>,
    x0: u32,
    y: u32,
    max_w: Option<u32>,
    cell_w: u32,
    fg: Color,
    k: nat,
) -> Pen
    decreases k,
{
    if k == 0 || k > chars.len() {
        pen
    } else {
        step_cell(
            lay_cells(pen, chars, cache, x0, y, max_w, cell_w, fg, (k - 1) as nat),
            lookup(cache, char_key(chars[k - 1], false, false)),
            x0,
            y,
            max_w,
            cell_w,
            fg,
        )
    }
}

/// The pen after the first `k` glyphs of a shaped run.
pub open spec fn lay_glyphs(
    pen: Pen,
    glyphs: Seq<ShapedGlyph>,
    bold: bool,
    italic: bool,
    cache: Map<u64, Option<GlyphInfo>>,
    x0: u32,
    y: u32,
    ascender: i32,
    max_w: Option<u32>,
    cell_w: u32,
    fg: Color,
    k: nat,
) -> Pen
    decreases k,
{
    if k == 0 || k > glyphs.len() {
        pen
    } else {
        step_glyph(
            lay_glyphs(
                pen,
                glyphs,
                bold,
                italic,
                cache,
                x0,
                y,
                ascender,
                max_w,
                cell_w,
                fg,
                (k - 1) as nat,
            ),
            lookup(cache, id_key(glyphs[k - 1].glyph_id, bold, italic)),
            glyphs[k - 1].cluster_width as int,
            x0,
            y,
            ascender,
            max_w,
            cell_w,
            fg,
        )
    }
}

/// The pen after one run.
pub open spec fn lay_run(
    pen: Pen,
    run: ShapedRunView,
    atlas: GlyphAtlas,
    x0: u32,
    y: u32,
    max_w: Option<u32>,
    fg: Color,
) -> Pen {
    if run.synthetic {
        lay_cells(pen, run.chars, atlas.cache@, x0, y, max_w, atlas.cell_w, fg, run.chars.len())
    } else {
        lay_glyphs(
            pen,
            run.glyphs,
            run.bold,
            run.italic,
            atlas.id_cache@,
            x0,
            y,
            atlas.ascender,
            max_w,
            atlas.cell_w,
            fg,
            run.glyphs.len(),
        )
    }
}

/// The pen after the first `k` runs of a text that starts at `x0`.
pub open spec fn lay_runs(
    runs: Seq<ShapedRunView>,
    atlas: GlyphAtlas,
    x0: u32,
    y: u32,
    max_w: Option<u32>,
    fg: Color,
    k: nat,
) -> Pen
    decreases k,
{
    if k == 0 || k > runs.len() {
        Pen { px: x0 as int, stopped: false, out: Seq::empty() }
    } else {
        lay_run(lay_runs(runs, atlas, x0, y, max_w, fg, (k - 1) as nat), runs[k - 1], atlas, x0, y, max_w, fg)
    }
}

/// The pen during layout.
struct PenState {
    px: i128,
    stopped: bool,
    out: Vec<GlyphInst>,
}

impl View for PenState {
    type V = Pen;

    closed spec fn view(&self) -> Pen {
        Pen { px: self.px as int, stopped: self.stopped, out: self.out@ }
    }
}

impl PenState {
    spec fn wf(&self) -> bool {
        -PEN_LIMIT <= self.px <= PEN_LIMIT
    }
}

fn clamp(v: i128) -> (c: i128)
    ensures
        c == clamp_pen(v as int),
        -PEN_LIMIT <= c <= PEN_LIMIT,
{
    if v > PEN_LIMIT {
        PEN_LIMIT
    } else if v < -PEN_LIMIT {
        -PEN_LIMIT
    } else {
        v
    }
}

fn make_quad(g: &GlyphInfo, x: i128, y: i128, fg: Color) -> (q: GlyphInst)
    requires
        -0x7000_0000_0000_0000 <= x <= 0x7000_0000_0000_0000,
        -0x7000_0000_0000_0000 <= y <= 0x7000_0000_0000_0000,
    ensures
        q == quad(*g, x as int, y as int, fg),
{
    GlyphInst {
        x: x as i64,
        y: y as i64,
        w: g.width,
        h: g.height,
        u0: g.uv_x as u64,
        v0: g.uv_y as u64,
        u1: g.uv_x as u64 + g.uv_w as u64,
        v1: g.uv_y as u64 + g.uv_h as u64,
        fg,
    }
}

fn is_past(px: i128, x0: u32, max_w: Option<u32>) -> (b: bool)
    requires
        -PEN_LIMIT <= px <= PEN_LIMIT,
    ensures
        b == past_limit(px as int, x0, max_w),
{
    match max_w {
        Some(m) => px - x0 as i128 >= m as i128,
        None => false,
    }
}

fn advance_cell(
    pen: &mut PenState,
    g: Option<GlyphInfo>,
    x0: u32,
    y: u32,
    max_w: Option<u32>,
    cell_w: u32,
    fg: Color,
)
    requires
        old(pen).wf(),
    ensures
        final(pen).wf(),
        final(pen)@ == step_cell(old(pen)@, g, x0, y, max_w, cell_w, fg),
{
    if pen.stopped {
        return ;
    }
    if is_past(pen.px, x0, max_w) {
        pen.stopped = true;
        return ;
    }
    match g {
        Some(i) => {
            if i.width > 0 && i.height > 0 {
                pen.out.push(make_quad(&i, pen.px, y as i128, fg));
            }
        },
        None => {},
    }
    pen.px = clamp(pen.px + cell_w as i128);
}

fn advance_glyph(
    pen: &mut PenState,
    g: Option<GlyphInfo>,
    cluster: usize,
    x0: u32,
    y: u32,
    ascender: i32,
    max_w: Option<u32>,
    cell_w: u32,
    fg: Color,
)
    requires
        old(pen).wf(),
    ensures
        final(pen).wf(),
        final(pen)@ == step_glyph(old(pen)@, g, cluster as int, x0, y, ascender, max_w, cell_w, fg),
{
    if pen.stopped {
        return ;
    }
    if is_past(pen.px, x0, max_w) {
        pen.stopped = true;
        return ;
    }
    match g {
        Some(i) => {
            if i.width > 0 && i.height > 0 {
                pen.out.push(
                    make_quad(
                        &i,
                        pen.px + i.bearing_x as i128,
                        y as i128 + (ascender as i128 - i.bearing_y as i128),
                        fg,
                    ),
                );
            }
            assert(-0x8000_0000 * 0x1_0000_0000_0000_0000 <= i.advance * cluster <= 0x8000_0000
                * 0x1_0000_0000_0000_0000) by (nonlinear_arith)
                requires
                    -0x8000_0000 <= i.advance <= 0x8000_0000,
                    0 <= cluster <= 0x1_0000_0000_0000_0000,
            ;
            pen.px = clamp(pen.px + i.advance as i128 * cluster as i128);
        },
        None => {
            assert(0 <= cell_w * cluster <= 0x1_0000_0000 * 0x1_0000_0000_0000_0000)
                by (nonlinear_arith)
                requires
                    0 <= cell_w <= 0x1_0000_0000,
                    0 <= cluster <= 0x1_0000_0000_0000_0000,
            ;
            pen.px = clamp(pen.px + cell_w as i128 * cluster as i128);
        },
    }
}

/// Lay out the runs of a text that starts at `(x, y)` and append its glyph
/// quads. Glyphs are taken from the atlas as it is: a glyph that it does
/// not hold takes its room but is not drawn. The text ends where the pen
/// reaches `max_w`.
pub fn glyph_instances(
    atlas: &GlyphAtlas,
    runs: &Vec<ShapedRun>,
    x: u32,
    y: u32,
    fg: Color,
    max_w: Option<u32>,
    out: &mut Vec<GlyphInst>,
)
    ensures
        final(out)@ == old(out)@ + lay_runs(
            shaped_run_views(runs@),
            *atlas,
            x,
            y,
            max_w,
            fg,
            runs@.len(),
        ).out,
{
    let mut pen = PenState { px: x as i128, stopped: false, out: Vec::new() };
    let mut k: usize = 0;
    let ghost views = shaped_run_views(runs@);
    assert(pen@ == lay_runs(views, *atlas, x, y, max_w, fg, 0)) by {
        assert(pen@.out =~= Seq::<GlyphInst>::empty());
    }
    while k < runs.len()
        invariant
            k <= runs.len(),
            pen.wf(),
            views == shaped_run_views(runs@),
            pen@ == lay_runs(views, *atlas, x, y, max_w, fg, k as nat),
        decreases runs.len() - k,
    {
        let run = &runs[k];
        assert(views[k as int] == run@);
        let ghost start = pen@;
        if run.synthetic {
            let mut j: usize = 0;
            while j < run.chars.len()
                invariant
                    j <= run.chars.len(),
                    pen.wf(),
                    pen@ == lay_cells(
                        start,
                        run.chars@,
                        atlas.cache@,
                        x,
                        y,
                        max_w,
                        atlas.cell_w,
                        fg,
                        j as nat,
                    ),
                decreases run.chars.len() - j,
            {
                let g = match atlas.cached(run.chars[j], false, false) {
                    Some(v) => v,
                    None => None,
                };
                advance_cell(&mut pen, g, x, y, max_w, atlas.cell_w, fg);
                j = j + 1;
            }
        } else {
            let mut j: usize = 0;
            while j < run.glyphs.len()
                invariant
                    j <= run.glyphs.len(),
                    pen.wf(),
                    pen@ == lay_glyphs(
                        start,
                        run.glyphs@,
                        run.bold,
                        run.italic,
                        atlas.id_cache@,
                        x,
                        y,
                        atlas.ascender,
                        max_w,
                        atlas.cell_w,
                        fg,
                        j as nat,
                    ),
                decreases run.glyphs.len() - j,
            {
                let sg = run.glyphs[j];
                let g = match atlas.cached_by_id(sg.glyph_id, run.bold, run.italic) {
                    Some(v) => v,
                    None => None,
                };
                advance_glyph(
                    &mut pen,
                    g,
                    sg.cluster_width,
                    x,
                    y,
                    atlas.ascender,
                    max_w,
                    atlas.cell_w,
                    fg,
                );
                j = j + 1;
            }
        }
        k = k + 1;
    }
    let ghost laid = pen@.out;
    let mut quads = pen.out;
    out.append(&mut quads);
}

/// The glyphs of shaped runs that the atlas was never asked for: their
/// index and style, in the order in which the runs use them.
pub open spec fn missing_glyphs(
    glyphs: Seq<ShapedGlyph>,
    bold: bool,
    italic: bool,
    cache: Map<u64, Option<GlyphInfo>>,
    k: nat,
) -> Seq<(u32, bool, bool)>
    decreases k,
{
    if k == 0 || k > glyphs.len() {
        Seq::empty()
    } else {
        missing_glyphs(glyphs, bold, italic, cache, (k - 1) as nat) + if cache.contains_key(
            id_key(glyphs[k - 1].glyph_id, bold, italic),
        ) {
            Seq::<(u32, bool, bool)>::empty()
        } else {
            seq![(glyphs[k - 1].glyph_id, bold, italic)]
        }
    }
}

pub open spec fn missing_in_runs(runs: Seq<ShapedRunView>, cache: Map<u64, Option<GlyphInfo>>, k: nat) -> Seq<
    (u32, bool, bool),
>
    decreases k,
{
    if k == 0 || k > runs.len() {
        Seq::empty()
    } else {
        missing_in_runs(runs, cache, (k - 1) as nat) + if runs[k - 1].synthetic {
            Seq::<(u32, bool, bool)>::empty()
        } else {
            missing_glyphs(
                runs[k - 1].glyphs,
                runs[k - 1].bold,
                runs[k - 1].italic,
                cache,
                runs[k - 1].glyphs.len(),
            )
        }
    }
}

/// The glyphs that have to be rasterised and given to the atlas before the
/// runs can be laid out in full.
pub fn uncached_glyphs(atlas: &GlyphAtlas, runs: &Vec<ShapedRun>) -> (out: Vec<(u32, bool, bool)>)
    ensures
        out@ == missing_in_runs(shaped_run_views(runs@), atlas.id_cache@, runs@.len()),
{
    let mut out: Vec<(u32, bool, bool)> = Vec::new();
    let mut k: usize = 0;
    let ghost views = shaped_run_views(runs@);
    assert(out@ =~= missing_in_runs(views, atlas.id_cache@, 0));
    while k < runs.len()
        invariant
            k <= runs.len(),
            views == shaped_run_views(runs@),
            out@ == missing_in_runs(views, atlas.id_cache@, k as nat),
        decreases runs.len() - k,
    {
        let run = &runs[k];
        assert(views[k as int] == run@);
        let ghost before = out@;
        if !run.synthetic {
            let mut j: usize = 0;
            assert(out@ =~= before + missing_glyphs(run.glyphs@, run.bold, run.italic, atlas.id_cache@, 0));
            while j < run.glyphs.len()
                invariant
                    j <= run.glyphs.len(),
                    out@ == before + missing_glyphs(
                        run.glyphs@,
                        run.bold,
                        run.italic,
                        atlas.id_cache@,
                        j as nat,
                    ),
                decreases run.glyphs.len() - j,
            {
                let id: u32 = run.glyphs[j].glyph_id;
                let ghost sofar = missing_glyphs(
                    run.glyphs@,
                    run.bold,
                    run.italic,
                    atlas.id_cache@,
                    j as nat,
                );
                if atlas.cached_by_id(id, run.bold, run.italic).is_none() {
                    out.push((id, run.bold, run.italic));
                    assert(out@ =~= before + (sofar + seq![(id, run.bold, run.italic)]));
                } else {
                    assert(out@ =~= before + (sofar + Seq::<(u32, bool, bool)>::empty()));
                }
                j = j + 1;
            }
        } else {
            assert(out@ =~= before + Seq::<(u32, bool, bool)>::empty());
        }
        k = k + 1;
    }
    out
}

// ── renderer ─────────────────────────────────────────────────────────────────

/// The glyph quads of the first `k` commands: those of each text, laid out
/// from its position in its colour and style.
pub open spec fn text_quads(
    cmds: Seq<DrawCmdView>,
    atlas: GlyphAtlas,
    font: Seq<u8>,
    k: nat,
) -> Seq<GlyphInst>
    decreases k,
{
    if k == 0 || k > cmds.len() {
        Seq::empty()
    } else {
        text_quads(cmds, atlas, font, (k - 1) as nat) + match cmds[k - 1] {
            DrawCmdView::Text { x, y, text, style, max_width } => lay_runs(
                shaped_text(font, text, style.bold, style.italic),
                atlas,
                x,
                y,
                max_width,
                style.fg,
                shaped_text(font, text, style.bold, style.italic).len(),
            ).out,
            _ => Seq::empty(),
        }
    }
}

/// The glyphs that the texts of the first `k` commands need and the atlas
/// was never asked for.
pub open spec fn missing_for(
    cmds: Seq<DrawCmdView>,
    atlas: GlyphAtlas,
    font: Seq<u8>,
    k: nat,
) -> Seq<(u32, bool, bool)>
    decreases k,
{
    if k == 0 || k > cmds.len() {
        Seq::empty()
    } else {
        missing_for(cmds, atlas, font, (k - 1) as nat) + match cmds[k - 1] {
            DrawCmdView::Text { x, y, text, style, max_width } => missing_in_runs(
                shaped_text(font, text, style.bold, style.italic),
                atlas.id_cache@,
                shaped_text(font, text, style.bold, style.italic).len(),
            ),
            _ => Seq::empty(),
        }
    }
}

/// What turns draw commands into instances: the atlas, the shaper and the
/// size of the viewport that the instances are projected into.
pub struct UiRenderer {
    pub atlas: GlyphAtlas,
    pub shaper: Shaper,
    pub cell_w: u32,
    pub cell_h: u32,
    pub ascender: i32,
    pub vp_w: u32,
    pub vp_h: u32,
}

impl UiRenderer {
    pub fn new(atlas: GlyphAtlas, shaper: Shaper, vp_w: u32, vp_h: u32) -> (r: UiRenderer)
        ensures
            r.atlas == atlas,
            r.shaper == shaper,
            r.cell_w == atlas.cell_w,
            r.cell_h == atlas.cell_h,
            r.ascender == atlas.ascender,
            r.vp_w == vp_w,
            r.vp_h == vp_h,
    {
        let cell_w: u32 = atlas.cell_w;
        let cell_h: u32 = atlas.cell_h;
        let ascender: i32 = atlas.ascender;
        UiRenderer { atlas, shaper, cell_w, cell_h, ascender, vp_w, vp_h }
    }

    /// Take the size of the viewport.
    pub fn resize(&mut self, w: u32, h: u32)
        ensures
            *final(self) == (UiRenderer { vp_w: w, vp_h: h, ..*old(self) }),
    {
        self.vp_w = w;
        self.vp_h = h;
    }

    /// The glyphs that the texts of the commands need and the atlas was
    /// never asked for, in the order in which the texts use them.
    pub fn missing(&self, cmds: &Vec<DrawCmd>) -> (out: Vec<(u32, bool, bool)>)
        ensures
            out@ == missing_for(cmd_views(cmds@), self.atlas, self.shaper.font_data(), cmds@.len()),
    {
        let mut out: Vec<(u32, bool, bool)> = Vec::new();
        let mut k: usize = 0;
        assert(out@ =~= missing_for(cmd_views(cmds@), self.atlas, self.shaper.font_data(), 0));
        while k < cmds.len()
            invariant
                k <= cmds.len(),
                out@ == missing_for(
                    cmd_views(cmds@),
                    self.atlas,
                    self.shaper.font_data(),
                    k as nat,
                ),
            decreases cmds.len() - k,
        {
            let ghost before = out@;
            assert(cmd_views(cmds@)[k as int] == cmds@[k as int]@);
            match &cmds[k] {
                DrawCmd::Text { x, y, text, style, max_width } => {
                    let runs = shape_text(&self.shaper, text.as_str(), style.bold, style.italic);
                    let mut more = uncached_glyphs(&self.atlas, &runs);
                    out.append(&mut more);
                },
                _ => {
                    assert(out@ =~= before + Seq::<(u32, bool, bool)>::empty());
                },
            }
            k = k + 1;
        }
        out
    }

    /// Turn draw commands into the background quads and the glyph quads of
    /// one frame, each in command order. Glyphs are taken from the atlas as
    /// it is.
    pub fn flush(&self, cmds: &Vec<DrawCmd>) -> (out: (Vec<BgInst>, Vec<GlyphInst>))
        ensures
            out.0@ == backgrounds(cmd_views(cmds@), self.cell_w, self.cell_h, cmds@.len()),
            out.1@ == text_quads(cmd_views(cmds@), self.atlas, self.shaper.font_data(), cmds@.len()),
    {
        let bg = background_instances(cmds, self.cell_w, self.cell_h);
        let mut quads: Vec<GlyphInst> = Vec::new();
        let mut k: usize = 0;
        assert(quads@ =~= text_quads(cmd_views(cmds@), self.atlas, self.shaper.font_data(), 0));
        while k < cmds.len()
            invariant
                k <= cmds.len(),
                quads@ == text_quads(
                    cmd_views(cmds@),
                    self.atlas,
                    self.shaper.font_data(),
                    k as nat,
                ),
            decreases cmds.len() - k,
        {
            let ghost before = quads@;
            assert(cmd_views(cmds@)[k as int] == cmds@[k as int]@);
            match &cmds[k] {
                DrawCmd::Text { x, y, text, style, max_width } => {
                    let runs = shape_text(&self.shaper, text.as_str(), style.bold, style.italic);
                    glyph_instances(&self.atlas, &runs, *x, *y, style.fg, *max_width, &mut quads);
                },
                _ => {
                    assert(quads@ =~= before + Seq::<GlyphInst>::empty());
                },
            }
            k = k + 1;
        }
        (bg, quads)
    }
}

/// A renderer with the viewport size kept beside it.
pub struct PixelUi {
    pub renderer: UiRenderer,
    pub vp_w: u32,
    pub vp_h: u32,
}

impl PixelUi {
    pub fn new_overlay(atlas: GlyphAtlas, shaper: Shaper, vp_w: u32, vp_h: u32) -> (p: PixelUi)
        ensures
            p.vp_w == vp_w,
            p.vp_h == vp_h,
            p.renderer == (UiRenderer {
                atlas,
                shaper,
                cell_w: atlas.cell_w,
                cell_h: atlas.cell_h,
                ascender: atlas.ascender,
                vp_w,
                vp_h,
            }),
    {
        PixelUi { renderer: UiRenderer::new(atlas, shaper, vp_w, vp_h), vp_w, vp_h }
    }

    pub fn resize(&mut self, w: u32, h: u32)
        ensures
            final(self).vp_w == w,
            final(self).vp_h == h,
            final(self).renderer == (UiRenderer { vp_w: w, vp_h: h, ..old(self).renderer }),
    {
        self.vp_w = w;
        self.vp_h = h;
        self.renderer.resize(w, h);
    }

    pub fn cell_size(&self) -> (s: (u32, u32))
        ensures
            s == (self.renderer.cell_w, self.renderer.cell_h),
    {
        (self.renderer.cell_w, self.renderer.cell_h)
    }
}

/// The place where the renderer is kept once the GPU context exists.
pub struct RendererSlot {
    pub renderer: Option<UiRenderer>,
}

/// Put the renderer into its place.
pub fn install_renderer(slot: &mut RendererSlot, r: UiRenderer)
    ensures
        final(slot).renderer == Some(r),
{
    slot.renderer = Some(r);
}

pub fn is_installed(slot: &RendererSlot) -> (b: bool)
    ensures
        b == slot.renderer is Some,
{
    slot.renderer.is_some()
}

/// The cell size of the installed renderer; 8 by 16 if there is none.
pub fn cell_size(slot: &RendererSlot) -> (s: (u32, u32))
    ensures
        s == (match slot.renderer {
            Some(r) => (r.cell_w, r.cell_h),
            None => (8u32, 16u32),
        }),
{
    match &slot.renderer {
        Some(r) => (r.cell_w, r.cell_h),
        None => (8, 16),
    }
}

/// Give the installed renderer, if any, the size of the viewport.
pub fn set_viewport(slot: &mut RendererSlot, w: u32, h: u32)
    ensures
        final(slot).renderer == (match old(slot).renderer {
            Some(r) => Some(UiRenderer { vp_w: w, vp_h: h, ..r }),
            None => None,
        }),
{
    match slot.renderer.take() {
        Some(r) => {
            let mut r = r;
            r.resize(w, h);
            slot.renderer = Some(r);
        },
        None => {},
    }
}

/// The viewport size of the installed renderer; 1920 by 1080 if there is
/// none.
pub fn get_viewport(slot: &RendererSlot) -> (s: (u32, u32))
    ensures
        s == (match slot.renderer {
            Some(r) => (r.vp_w, r.vp_h),
            None => (1920u32, 1080u32),
        }),
{
    match &slot.renderer {
        Some(r) => (r.vp_w, r.vp_h),
        None => (1920, 1080),
    }
}

} // verus!

//! Text runs: segmentation by style and kind, and shaping of the runs that
//! go through the font.

use crate::box_drawing::is_box_char;
use crate::text::{chars_of, push_char};
use vstd::prelude::*;

verus! {

// ── shaping ──────────────────────────────────────────────────────────────────

/// One glyph of a shaped run.
#[derive(Debug, Clone, Copy, PartialEq, Eq, Structural)]
pub struct ShapedGlyph {
    /// Glyph index in the font (not a code point).
    pub glyph_id: u32,
    /// Number of characters of the input that the glyph stands for: 1 for
    /// an ordinary glyph, more for a ligature.
    pub cluster_width: usize,
}

/// The font data is a font that the shaper can read.
pub uninterp spec fn font_parses(font: Seq<u8>) -> bool;

/// Glyph id and byte offset of the cluster start of each glyph that shaping
/// `text` with the font gives.
pub uninterp spec fn shaped_infos(font: Seq<u8>, text: Seq<char>) -> Seq<(u32, u32)>;

/// `rustybuzz::Face::from_slice` for the first face of the data: whether
/// the data parses as a font.
#[verifier::external_body]
fn face_ok(font: &Vec<u8>) -> (ok: bool)
    ensures
        ok == font_parses(font@),
{
    rustybuzz::Face::from_slice(font.as_slice(), 0).is_some()
}

/// `rustybuzz::shape` of `text` with the first face of the font, without
/// features and with script and direction guessed from the text: the glyph
/// id and the cluster of each glyph info.
#[verifier::external_body]
fn shape_infos(font: &Vec<u8>, text: &str) -> (infos: Vec<(u32, u32)>)
    requires
        font_parses(font@),
    ensures
        infos@ == shaped_infos(font@, text@),
{
    let face = rustybuzz::Face::from_slice(font.as_slice(), 0).unwrap();
    let mut buf = rustybuzz::UnicodeBuffer::new();
    buf.push_str(text);
    let out = rustybuzz::shape(&face, &[], buf);
    out.glyph_infos().iter().map(|g| (g.glyph_id, g.cluster)).collect()
}

/// Number of bytes of a character in UTF-8.
pub open spec fn utf8_len(c: char) -> int {
    if (c as u32) < 0x80 {
        1
    } else if (c as u32) < 0x800 {
        2
    } else if (c as u32) < 0x10000 {
        3
    } else {
        4
    }
}

/// Byte offset of the `k`-th character of `text`.
pub open spec fn byte_offset(text: Seq<char>, k: nat) -> int
    decreases k,
{
    if k == 0 || k > text.len() {
        0
    } else {
        byte_offset(text, (k - 1) as nat) + utf8_len(text[k - 1])
    }
}

/// Number of characters among the first `k` of `text` that start at a byte
/// offset in `[from, to)`.
pub open spec fn chars_between(text: Seq<char>, from: int, to: int, k: nat) -> int
    decreases k,
{
    if k == 0 || k > text.len() {
        0
    } else {
        chars_between(text, from, to, (k - 1) as nat) + if from <= byte_offset(
            text,
            (k - 1) as nat,
        ) < to {
            1int
        } else {
            0int
        }
    }
}

/// Number of characters that glyph `i` stands for: those from its cluster
/// start up to the cluster start of the next glyph, or the end of the text
/// for the last; at least 1.
pub open spec fn cluster_width_of(text: Seq<char>, infos: Seq<(u32, u32)>, i: int) -> int {
    let from = infos[i].1 as int;
    let to = if i + 1 < infos.len() {
        infos[i + 1].1 as int
    } else {
        byte_offset(text, text.len())
    };
    if chars_between(text, from, to, text.len()) < 1 {
        1
    } else {
        chars_between(text, from, to, text.len())
    }
}

fn char_len(c: char) -> (n: u128)
    ensures
        n == utf8_len(c),
{
    let cp: u32 = c as u32;
    if cp < 0x80 {
        1
    } else if cp < 0x800 {
        2
    } else if cp < 0x10000 {
        3
    } else {
        4
    }
}

/// The glyphs of a shaped run with the number of characters that each
/// stands for, from the glyph infos that shaping `text` gave.
pub fn cluster_widths(text: &str, infos: &Vec<(u32, u32)>) -> (glyphs: Vec<ShapedGlyph>)
    ensures
        glyphs.len() == infos.len(),
        forall|i: int|
            0 <= i < glyphs.len() ==> (#[trigger] glyphs[i]).glyph_id == infos[i].0
                && glyphs[i].cluster_width == cluster_width_of(text@, infos@, i),
{
    let v = chars_of(text);
    let n: usize = v.len();
    let mut total: u128 = 0;
    let mut k: usize = 0;
    while k < n
        invariant
            k <= n,
            n == v@.len(),
            n <= usize::MAX,
            total == byte_offset(v@, k as nat),
            total <= 4 * k,
        decreases n - k,
    {
        total = total + char_len(v[k]);
        k = k + 1;
    }
    let mut glyphs: Vec<ShapedGlyph> = Vec::new();
    let mut i: usize = 0;
    while i < infos.len()
        invariant
            i <= infos.len(),
            n == v@.len(),
            v@ == text@,
            total == byte_offset(v@, n as nat),
            glyphs.len() == i,
            forall|j: int|
                0 <= j < i ==> (#[trigger] glyphs[j]).glyph_id == infos[j].0
                    && glyphs[j].cluster_width == cluster_width_of(text@, infos@, j),
        decreases infos.len() - i,
    {
        let from: u128 = infos[i].1 as u128;
        let to: u128 = if i + 1 < infos.len() { infos[i + 1].1 as u128 } else { total };
        let mut count: usize = 0;
        let mut at: u128 = 0;
        let mut j: usize = 0;
        while j < n
            invariant
                j <= n,
                n == v@.len(),
                at == byte_offset(v@, j as nat),
                at <= 4 * j,
                count == chars_between(v@, from as int, to as int, j as nat),
                count <= j,
            decreases n - j,
        {
            if from <= at && at < to {
                count = count + 1;
            }
            at = at + char_len(v[j]);
            j = j + 1;
        }
        glyphs.push(ShapedGlyph { glyph_id: infos[i].0, cluster_width: if count < 1 { 1 } else { count } });
        i = i + 1;
    }
    glyphs
}

/// The glyphs that shaping `text` with the font gives: none for an empty
/// text, else one for each glyph info, with the characters it stands for.
pub open spec fn shaped_glyphs(font: Seq<u8>, text: Seq<char>) -> Seq<ShapedGlyph> {
    if text.len() == 0 {
        Seq::empty()
    } else {
        Seq::new(
            shaped_infos(font, text).len(),
            |i: int|
                ShapedGlyph {
                    glyph_id: shaped_infos(font, text)[i].0,
                    cluster_width: cluster_width_of(text, shaped_infos(font, text), i) as usize,
                },
        )
    }
}

/// Shapes runs of text with one font.
pub struct Shaper {
    font: Vec<u8>,
}

impl Shaper {
    #[verifier::type_invariant]
    spec fn parses(&self) -> bool {
        font_parses(self.font@)
    }

    /// The font that the shaper works with.
    pub closed spec fn font_data(&self) -> Seq<u8> {
        self.font@
    }

    /// A shaper for a font that parses.
    pub fn new(font_data: Vec<u8>) -> (s: Shaper)
        requires
            font_parses(font_data@),
        ensures
            s.font_data() == font_data@,
    {
        Shaper { font: font_data }
    }

    /// A shaper for the font, or `None` if the data is no font.
    pub fn try_new(font_data: Vec<u8>) -> (s: Option<Shaper>)
        ensures
            s is Some <==> font_parses(font_data@),
            s matches Some(sh) ==> sh.font_data() == font_data@,
    {
        if face_ok(&font_data) {
            Some(Shaper::new(font_data))
        } else {
            None
        }
    }

    /// Shape one run of uniform style that holds no synthetic character.
    /// There is one glyph for each glyph that the font's shaping gives, a
    /// ligature counting for as many characters as it replaces; an empty
    /// run gives no glyph.
    pub fn shape(&self, text: &str) -> (glyphs: Vec<ShapedGlyph>)
        ensures
            glyphs@ == shaped_glyphs(self.font_data(), text@),
    {
        if text.unicode_len() == 0 {
            let glyphs: Vec<ShapedGlyph> = Vec::new();
            assert(glyphs@ =~= shaped_glyphs(self.font_data(), text@));
            return glyphs;
        }
        proof {
            use_type_invariant(self);
        }
        let infos = shape_infos(&self.font, text);
        let glyphs = cluster_widths(text, &infos);
        assert(glyphs@ =~= shaped_glyphs(self.font_data(), text@));
        glyphs
    }
}

// ── run segmentation ─────────────────────────────────────────────────────────

/// A stretch of a row with one style, all of it synthetic or none of it.
pub struct Run {
    pub start_col: usize,
    pub text: String,
    pub bold: bool,
    pub italic: bool,
    /// The run's characters are drawn cell by cell, not shaped.
    pub synthetic: bool,
}

pub struct RunView {
    pub start_col: usize,
    pub text: Seq<char>,
    pub bold: bool,
    pub italic: bool,
    pub synthetic: bool,
}

impl View for Run {
    type V = RunView;

    open spec fn view(&self) -> RunView {
        RunView {
            start_col: self.start_col,
            text: self.text@,
            bold: self.bold,
            italic: self.italic,
            synthetic: self.synthetic,
        }
    }
}

pub open spec fn run_views(runs: Seq<Run>) -> Seq<RunView> {
    Seq::new(runs.len(), |i: int| runs[i]@)
}

/// Two cells belong to the same run.
pub open spec fn same_run(a: (char, bool, bool), b: (char, bool, bool)) -> bool {
    is_box_char(a.0 as u32) == is_box_char(b.0 as u32) && a.1 == b.1 && a.2 == b.2
}

/// The runs of the first `k` cells: a run ends where the style or the kind
/// of the characters changes.
pub open spec fn runs_of(cells: Seq<(char, bool, bool)>, k: nat) -> Seq<RunView>
    decreases k,
{
    if k == 0 || k > cells.len() {
        Seq::empty()
    } else {
        let before = runs_of(cells, (k - 1) as nat);
        let c = cells[k - 1];
        if k >= 2 && same_run(c, cells[k - 2]) && before.len() > 0 {
            before.update(
                before.len() - 1,
                RunView { text: before.last().text.push(c.0), ..before.last() },
            )
        } else {
            before.push(
                RunView {
                    start_col: (k - 1) as usize,
                    text: seq![c.0],
                    bold: c.1,
                    italic: c.2,
                    synthetic: is_box_char(c.0 as u32),
                },
            )
        }
    }
}

/// The last run of a non-empty row has the style and kind of the last cell.
proof fn lemma_last_run(cells: Seq<(char, bool, bool)>, k: nat)
    requires
        1 <= k <= cells.len(),
    ensures
        runs_of(cells, k).len() > 0,
        runs_of(cells, k).last().bold == cells[k - 1].1,
        runs_of(cells, k).last().italic == cells[k - 1].2,
        runs_of(cells, k).last().synthetic == is_box_char(cells[k - 1].0 as u32),
    decreases k,
{
    if k >= 2 {
        lemma_last_run(cells, (k - 1) as nat);
    }
}

/// Split a row of `(char, bold, italic)` cells into runs.
pub fn segment_row(cells: &[(char, bool, bool)]) -> (runs: Vec<Run>)
    ensures
        run_views(runs@) == runs_of(cells@, cells@.len()),
{
    let mut runs: Vec<Run> = Vec::new();
    let mut col: usize = 0;
    assert(run_views(runs@) =~= runs_of(cells@, 0));
    while col < cells.len()
        invariant
            col <= cells.len(),
            run_views(runs@) == runs_of(cells@, col as nat),
        decreases cells.len() - col,
    {
        let (ch, bold, italic) = cells[col];
        let synthetic: bool = is_synthetic(ch as u32);
        let n: usize = runs.len();
        let ghost before = run_views(runs@);
        proof {
            if col >= 1 {
                lemma_last_run(cells@, col as nat);
            }
        }
        if n > 0 && runs[n - 1].synthetic == synthetic && runs[n - 1].bold == bold && runs[n
            - 1].italic == italic {
            push_char(&mut runs[n - 1].text, ch);
            proof {
                assert(before.last() == before[n - 1]);
                assert(run_views(runs@) =~= before.update(
                    n - 1,
                    RunView { text: before.last().text.push(ch), ..before.last() },
                ));
            }
        } else {
            let mut text = String::new();
            push_char(&mut text, ch);
            assert(text@ =~= seq![ch]);
            runs.push(Run { start_col: col, text, bold, italic, synthetic });
            proof {
                assert(run_views(runs@) =~= before.push(
                    RunView { start_col: col, text: seq![ch], bold, italic, synthetic },
                ));
            }
        }
        col = col + 1;
    }
    runs
}

/// A row whose cells are the characters of `text`, all in one style.
pub open spec fn styled_cells(text: Seq<char>, bold: bool, italic: bool) -> Seq<(char, bool, bool)> {
    Seq::new(text.len(), |i: int| (text[i], bold, italic))
}

/// Split a text of one style into runs.
pub fn segment_str(text: &str, bold: bool, italic: bool) -> (runs: Vec<Run>)
    ensures
        run_views(runs@) == runs_of(styled_cells(text@, bold, italic), text@.len()),
{
    let v = chars_of(text);
    let mut cells: Vec<(char, bool, bool)> = Vec::new();
    let mut i: usize = 0;
    while i < v.len()
        invariant
            i <= v.len(),
            v@ == text@,
            cells@ == styled_cells(text@, bold, italic).subrange(0, i as int),
        decreases v.len() - i,
    {
        cells.push((v[i], bold, italic));
        proof {
            assert(cells@ =~= styled_cells(text@, bold, italic).subrange(0, i + 1));
        }
        i = i + 1;
    }
    proof {
        assert(cells@ =~= styled_cells(text@, bold, italic));
    }
    segment_row(cells.as_slice())
}

/// True for code points that are drawn programmatically rather than taken
/// from the font.
pub fn is_synthetic(cp: u32) -> (b: bool)
    ensures
        b == is_box_char(cp),
{
    0x2500 <= cp && cp <= 0x259F || 0x2800 <= cp && cp <= 0x28FF || 0xE0B0 <= cp && cp <= 0xE0B3
}

} // verus!

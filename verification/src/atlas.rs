//! The glyph atlas: one square RGBA texture into which glyph bitmaps are
//! packed row by row, and a cache of where each glyph lies.

use crate::box_drawing::{
    alpha_at, glyph_alpha, in_canvas, is_box_char, is_canvas, render_box_char, MAX_CELL,
};
use std::collections::HashMap;
use vstd::prelude::*;

verus! {

broadcast use vstd::std_specs::hash::group_hash_axioms;

/// Edge of the atlas texture in texels.
pub const ATLAS_SIZE: u32 = 2048;

/// Texels left free between neighbouring glyphs.
pub const GAP: u32 = 2;

/// Where a glyph lies in the atlas and how it is placed on the line.
///
/// The texture coordinates are in half texels, that is in units of 1/4096
/// of the texture's edge, and are inset by half a texel on every side of
/// the glyph's rectangle.
#[derive(Debug, Clone, Copy, PartialEq, Eq, Structural)]
pub struct GlyphInfo {
    pub uv_x: u32,
    pub uv_y: u32,
    pub uv_w: u32,
    pub uv_h: u32,
    pub width: i32,
    pub height: i32,
    pub bearing_x: i32,
    pub bearing_y: i32,
    pub advance: i32,
}

/// An outline rasterised from a font: its metrics and its coverage, one
/// byte per pixel, row by row. A glyph without ink has no size.
pub struct Raster {
    pub width: u32,
    pub height: u32,
    pub bearing_x: i32,
    pub bearing_y: i32,
    pub advance: i32,
    pub coverage: Vec<u8>,
}

impl Raster {
    pub open spec fn wf(&self) -> bool {
        &&& self.width <= 0x7FFF
        &&& self.height <= 0x7FFF
        &&& self.coverage.len() == self.width as int * self.height as int
    }

    /// Whether the coverage has one byte for each pixel of a glyph of at
    /// most 32767 pixels each way.
    pub fn is_well_formed(&self) -> (b: bool)
        ensures
            b == self.wf(),
    {
        if self.width > 0x7FFF || self.height > 0x7FFF {
            return false;
        }
        assert(self.width * self.height <= 0x7FFF * 0x7FFF) by (nonlinear_arith)
            requires
                self.width <= 0x7FFF,
                self.height <= 0x7FFF,
        ;
        self.coverage.len() as u64 == (self.width * self.height) as u64
    }
}

/// Cache key of a character in a style.
pub open spec fn char_key(ch: char, bold: bool, italic: bool) -> u64 {
    ((ch as u32) as u64 * 4 + (if bold { 2u64 } else { 0u64 }) + (if italic { 1u64 } else { 0u64 })) as u64
}

/// Cache key of a glyph index in a style.
pub open spec fn id_key(id: u32, bold: bool, italic: bool) -> u64 {
    (id as u64 * 4 + (if bold { 2u64 } else { 0u64 }) + (if italic { 1u64 } else { 0u64 })) as u64
}

/// Byte offset of texel `(x, y)`.
pub open spec fn texel_index(x: int, y: int) -> int {
    (y * 2048 + x) * 4
}

/// The four bytes of texel `(x, y)`.
pub open spec fn texel(pixels: Seq<u8>, x: int, y: int) -> (u8, u8, u8, u8) {
    let i = texel_index(x, y);
    (pixels[i], pixels[i + 1], pixels[i + 2], pixels[i + 3])
}

pub open spec fn in_atlas(x: int, y: int) -> bool {
    0 <= x < 2048 && 0 <= y < 2048
}

/// Coverage of pixel `(px, py)` of a bitmap of width `w`: the alpha byte
/// of an RGBA bitmap, the byte itself of a coverage bitmap.
pub open spec fn source_alpha(bitmap: Seq<u8>, rgba: bool, w: int, px: int, py: int) -> u8 {
    if rgba {
        bitmap[(py * w + px) * 4 + 3]
    } else {
        bitmap[py * w + px]
    }
}

/// The texel `(x, y)` lies above the current row of an atlas, or in it
/// left of the cursor.
pub open spec fn used_area(cursor_x: u32, cursor_y: u32, row_h: u32, x: int, y: int) -> bool {
    y < cursor_y || (y < cursor_y + row_h && x < cursor_x)
}

/// The glyph `g` lies in the used part of a texture and shows the given
/// bitmap in white.
pub open spec fn shows(
    pixels: Seq<u8>,
    cursor_x: u32,
    cursor_y: u32,
    row_h: u32,
    g: GlyphInfo,
    bitmap: Seq<u8>,
    rgba: bool,
    w: int,
) -> bool {
    let x0 = (g.uv_x - 1) / 2;
    let y0 = (g.uv_y - 1) / 2;
    &&& g.uv_x % 2 == 1 && g.uv_y % 2 == 1
    &&& g.width >= 1 && g.height >= 1
    &&& g.uv_w == 2 * g.width - 2
    &&& g.uv_h == 2 * g.height - 2
    &&& x0 + g.width <= 2048
    &&& y0 + g.height <= 2048
    &&& forall|px: int, py: int|
        0 <= px < g.width && 0 <= py < g.height ==> used_area(
            cursor_x,
            cursor_y,
            row_h,
            x0 + px,
            y0 + py,
        ) && #[trigger] texel(pixels, x0 + px, y0 + py) == (
            255u8,
            255u8,
            255u8,
            source_alpha(bitmap, rgba, w, px, py),
        )
}

/// Where the next glyph goes: the column and the row of its top left
/// texel, and the height of that row so far.
pub struct Cursor {
    pub x: int,
    pub y: int,
    pub row_h: int,
}

/// The place for a bitmap that is `w` texels wide: at the cursor if the
/// bitmap and the gap behind it fit into the row, else at the start of a
/// new row below.
pub open spec fn slot(c: Cursor, w: int) -> Cursor {
    if c.x + w + GAP > ATLAS_SIZE {
        Cursor {
            x: 0,
            y: if c.y + c.row_h + GAP <= ATLAS_SIZE {
                c.y + c.row_h + GAP
            } else {
                ATLAS_SIZE as int
            },
            row_h: 0,
        }
    } else {
        c
    }
}

/// A bitmap of `w` by `h` texels has room: the rows it needs, and the gap
/// below them, lie within the texture, and so does its width with a gap.
pub open spec fn has_room(c: Cursor, w: int, h: int) -> bool {
    slot(c, w).y + h + GAP <= ATLAS_SIZE && w + GAP <= ATLAS_SIZE
}

/// The cursor after a bitmap was offered: behind the bitmap if it had
/// room, else where the bitmap would have gone.
pub open spec fn advanced(c: Cursor, w: int, h: int) -> Cursor {
    let at = slot(c, w);
    if has_room(c, w, h) {
        Cursor { x: at.x + w + GAP, y: at.y, row_h: if h > at.row_h { h } else { at.row_h } }
    } else {
        at
    }
}

/// The rows of a bitmap that are kept: all of a synthetic glyph, at most
/// two cells' height of an outline.
pub open spec fn kept_rows(rgba: bool, h: int, cell_h: int) -> int {
    if rgba || h <= 2 * cell_h {
        h
    } else {
        2 * cell_h
    }
}

/// The glyph was put at the place for it.
pub open spec fn placed_at(g: GlyphInfo, c: Cursor, w: int, h: int) -> bool {
    &&& g.uv_x == 2 * slot(c, w).x + 1
    &&& g.uv_y == 2 * slot(c, w).y + 1
    &&& g.uv_w == 2 * w - 2
    &&& g.uv_h == 2 * h - 2
    &&& g.width == w
    &&& g.height == h
}

/// The cursor after `n` bitmaps of `w` by `h` texels were offered in turn.
pub open spec fn packed(c: Cursor, w: int, h: int, n: nat) -> Cursor
    decreases n,
{
    if n == 0 {
        c
    } else {
        advanced(packed(c, w, h, (n - 1) as nat), w, h)
    }
}

/// The glyph of a synthetic character that is drawn with the cursor at
/// `c`: a cell at the place for it, or nothing if there is no room.
pub open spec fn cell_glyph(c: Cursor, w: u32, h: u32, ascender: i32) -> Option<GlyphInfo> {
    if has_room(c, w as int, h as int) {
        Some(
            GlyphInfo {
                uv_x: (2 * slot(c, w as int).x + 1) as u32,
                uv_y: (2 * slot(c, w as int).y + 1) as u32,
                uv_w: (2 * w - 2) as u32,
                uv_h: (2 * h - 2) as u32,
                width: w as i32,
                height: h as i32,
                bearing_x: 0,
                bearing_y: ascender,
                advance: w as i32,
            },
        )
    } else {
        None
    }
}

/// The place of a synthetic code point in the order in which a new atlas
/// draws them: box drawing and block elements, braille patterns, then the
/// Powerline arrows.
pub open spec fn box_index(cp: u32) -> nat {
    if cp <= 0x259F {
        (cp - 0x2500) as nat
    } else if cp <= 0x28FF {
        (160 + cp - 0x2800) as nat
    } else {
        (416 + cp - 0xE0B0) as nat
    }
}

/// Offering bitmaps in two batches is offering them in one.
pub proof fn lemma_packed_add(c: Cursor, w: int, h: int, n: nat, m: nat)
    ensures
        packed(packed(c, w, h, n), w, h, m) == packed(c, w, h, n + m),
    decreases m,
{
    if m > 0 {
        lemma_packed_add(c, w, h, n, (m - 1) as nat);
    }
}

pub struct GlyphAtlas {
    pub cache: HashMap<u64, Option<GlyphInfo>>,
    pub id_cache: HashMap<u64, Option<GlyphInfo>>,
    pub pixels: Vec<u8>,
    pub cursor_x: u32,
    pub cursor_y: u32,
    pub row_h: u32,
    pub cell_w: u32,
    pub cell_h: u32,
    pub ascender: i32,
    pub dirty: bool,
}

proof fn lemma_source_index(w: int, h: int, px: int, py: int)
    requires
        0 <= px < w,
        0 <= py < h,
    ensures
        0 <= py * w + px < w * h,
{
    assert(0 <= py * w) by (nonlinear_arith)
        requires
            0 <= py,
            0 <= w,
    ;
    assert((py + 1) * w <= h * w) by (nonlinear_arith)
        requires
            py + 1 <= h,
            0 <= w,
    ;
    assert((py + 1) * w == py * w + w) by (nonlinear_arith);
    assert(h * w == w * h) by (nonlinear_arith);
}

impl GlyphAtlas {
    /// The part of the texture that holds glyphs: the rows above the
    /// current one, and the current row left of the cursor.
    pub open spec fn used(&self, x: int, y: int) -> bool {
        used_area(self.cursor_x, self.cursor_y, self.row_h, x, y)
    }

    /// A cached glyph of a synthetic character fills one cell and sits on
    /// the cell's origin.
    pub open spec fn is_cell_glyph(&self, g: GlyphInfo) -> bool {
        &&& g.bearing_x == 0
        &&& g.bearing_y == self.ascender
        &&& g.advance == self.cell_w
        &&& g.width == self.cell_w
        &&& g.height == self.cell_h
    }

    pub open spec fn cursor(&self) -> Cursor {
        Cursor { x: self.cursor_x as int, y: self.cursor_y as int, row_h: self.row_h as int }
    }

    /// The size of what is drawn for an outline: nothing for a glyph
    /// without outline or without ink.
    pub open spec fn outline_size(&self, outline: Option<Raster>) -> Option<(int, int)> {
        match outline {
            Some(o) => if o.width == 0 || o.height == 0 {
                None
            } else {
                Some((o.width as int, kept_rows(false, o.height as int, self.cell_h as int)))
            },
            None => None,
        }
    }

    /// The size of what is drawn for a character: a cell for a synthetic
    /// one, else what its outline asks for.
    pub open spec fn ink_size(&self, ch: char, outline: Option<Raster>) -> Option<(int, int)> {
        if is_box_char(ch as u32) {
            Some((self.cell_w as int, self.cell_h as int))
        } else {
            self.outline_size(outline)
        }
    }

    /// What an attempt to draw something of the given size leads to: the
    /// result is a glyph exactly if there is room, the glyph lies at the
    /// place for it, the cursor moves on and the texture counts as changed;
    /// without room the texture is as it was. Nothing to draw leaves
    /// cursor and texture alone.
    pub open spec fn drawn(&self, old: &GlyphAtlas, size: Option<(int, int)>, r: Option<GlyphInfo>) -> bool {
        match size {
            Some((w, h)) => {
                &&& self.cursor() == advanced(old.cursor(), w, h)
                &&& r is Some <==> has_room(old.cursor(), w, h)
                &&& r matches Some(g) ==> placed_at(g, old.cursor(), w, h)
                &&& r is None ==> self.pixels == old.pixels
                &&& self.dirty == (old.dirty || r is Some)
            },
            None => self.cursor() == old.cursor() && self.pixels == old.pixels && self.dirty
                == old.dirty,
        }
    }

    /// The code points from `first` up to but without `upto` were drawn in
    /// turn, the first of them as bitmap number `base` after the cursor
    /// stood at `c`.
    pub open spec fn lined_up(&self, c: Cursor, first: u32, upto: int, base: nat) -> bool {
        forall|cp: u32|
            first <= cp < upto ==> self.cache@.contains_key(#[trigger] id_key(cp, false, false))
                && self.cache@[id_key(cp, false, false)] == cell_glyph(
                packed(c, self.cell_w as int, self.cell_h as int, (base + cp - first) as nat),
                self.cell_w,
                self.cell_h,
                self.ascender,
            )
    }

    /// None of the code points from `first` to `last` was asked for yet.
    pub open spec fn fresh(&self, first: int, last: int) -> bool {
        forall|cp: u32|
            first <= cp <= last ==> !self.cache@.contains_key(#[trigger] id_key(cp, false, false))
    }

    pub open spec fn wf(&self) -> bool {
        &&& self.pixels.len() == 2048 * 2048 * 4
        &&& self.cursor_x <= ATLAS_SIZE
        &&& self.cursor_y <= ATLAS_SIZE
        &&& self.row_h > 0 ==> self.cursor_y + self.row_h + GAP <= ATLAS_SIZE
        &&& 1 <= self.cell_w <= MAX_CELL
        &&& 1 <= self.cell_h <= MAX_CELL
        &&& forall|ch: char, bold: bool, italic: bool|
            is_box_char(ch as u32) && self.cache@.contains_key(
                #[trigger] char_key(ch, bold, italic),
            ) ==> (self.cache@[char_key(ch, bold, italic)] matches Some(g) ==> self.is_cell_glyph(g))
    }

    /// Every synthetic character has been drawn, or was dropped because the
    /// atlas was full.
    pub open spec fn warm(&self) -> bool {
        forall|cp: u32|
            is_box_char(cp) ==> self.cache@.contains_key(#[trigger] id_key(cp, false, false))
    }

    /// `other` is this atlas at a later time: the cell metrics are the
    /// same, every cached glyph is still cached as it was, the used part
    /// of the texture has not shrunk and none of its texels has changed.
    pub open spec fn grown_from(&self, old: &GlyphAtlas) -> bool {
        &&& self.cell_w == old.cell_w
        &&& self.cell_h == old.cell_h
        &&& self.ascender == old.ascender
        &&& forall|k: u64| #[trigger]
            old.cache@.contains_key(k) ==> self.cache@.contains_key(k) && self.cache@[k]
                == old.cache@[k]
        &&& forall|k: u64| #[trigger]
            old.id_cache@.contains_key(k) ==> self.id_cache@.contains_key(k) && self.id_cache@[k]
                == old.id_cache@[k]
        &&& forall|x: int, y: int|
            in_atlas(x, y) && #[trigger] old.used(x, y) ==> self.used(x, y) && texel(
                self.pixels@,
                x,
                y,
            ) == texel(old.pixels@, x, y)
    }

    /// The glyph `g` lies in the used part of the texture and shows the
    /// given bitmap in white.
    pub open spec fn holds(&self, g: GlyphInfo, bitmap: Seq<u8>, rgba: bool, w: int) -> bool {
        shows(self.pixels@, self.cursor_x, self.cursor_y, self.row_h, g, bitmap, rgba, w)
    }

    /// An atlas for cells of the given size, with every synthetic character
    /// drawn into it.
    pub fn new(cell_w: u32, cell_h: u32, ascender: i32) -> (a: GlyphAtlas)
        requires
            1 <= cell_w <= MAX_CELL,
            1 <= cell_h <= MAX_CELL,
        ensures
            a.wf(),
            a.warm(),
            a.cell_w == cell_w,
            a.cell_h == cell_h,
            a.ascender == ascender,
            a.id_cache@ == Map::<u64, Option<GlyphInfo>>::empty(),
            a.dirty,
            a.cursor() == packed(
                Cursor { x: 0, y: 0, row_h: 0 },
                cell_w as int,
                cell_h as int,
                420,
            ),
            forall|cp: u32|
                is_box_char(cp) ==> a.cache@[#[trigger] id_key(cp, false, false)] == cell_glyph(
                    packed(Cursor { x: 0, y: 0, row_h: 0 }, cell_w as int, cell_h as int, box_index(cp)),
                    cell_w,
                    cell_h,
                    ascender,
                ),
    {
        let mut a = GlyphAtlas::empty(cell_w, cell_h, ascender);
        a.prewarm_synthetic();
        a.dirty = true;
        a
    }

    /// An empty atlas for cells of the given size.
    pub fn empty(cell_w: u32, cell_h: u32, ascender: i32) -> (a: GlyphAtlas)
        requires
            1 <= cell_w <= MAX_CELL,
            1 <= cell_h <= MAX_CELL,
        ensures
            a.wf(),
            a.cell_w == cell_w,
            a.cell_h == cell_h,
            a.ascender == ascender,
            a.cursor_x == 0 && a.cursor_y == 0 && a.row_h == 0,
            a.cache@ == Map::<u64, Option<GlyphInfo>>::empty(),
            a.id_cache@ == Map::<u64, Option<GlyphInfo>>::empty(),
            a.dirty,
    {
        let n: usize = 2048 * 2048 * 4;
        GlyphAtlas {
            cache: HashMap::new(),
            id_cache: HashMap::new(),
            pixels: vec![0u8; n],
            cursor_x: 0,
            cursor_y: 0,
            row_h: 0,
            cell_w,
            cell_h,
            ascender,
            dirty: true,
        }
    }

    /// Copy a bitmap into the next free place of the texture, in white with
    /// the bitmap's coverage as alpha. A bitmap that does not fit into the
    /// current row opens a new one; one that does not fit into the texture
    /// is dropped.
    fn blit_bitmap(
        &mut self,
        bitmap: &Vec<u8>,
        rgba: bool,
        w: u32,
        h: u32,
        bearing_x: i32,
        bearing_y: i32,
        advance: i32,
    ) -> (r: Option<GlyphInfo>)
        requires
            old(self).wf(),
            1 <= w <= 0x7FFF,
            1 <= h <= 0x7FFF,
            bitmap.len() == (if rgba { w as int * h as int * 4 } else { w as int * h as int }),
        ensures
            final(self).wf(),
            final(self).grown_from(old(self)),
            final(self).cache == old(self).cache,
            final(self).id_cache == old(self).id_cache,
            final(self).drawn(
                old(self),
                Some((w as int, kept_rows(rgba, h as int, old(self).cell_h as int))),
                r,
            ),
            r matches Some(g) ==> {
                &&& final(self).holds(g, bitmap@, rgba, w as int)
                &&& g.bearing_x == bearing_x
                &&& g.bearing_y == bearing_y
                &&& g.advance == advance
            },
    {
        let hu: u32 = if rgba || h <= self.cell_h * 2 { h } else { self.cell_h * 2 };
        if self.cursor_x as u64 + w as u64 + GAP as u64 > ATLAS_SIZE as u64 {
            self.cursor_y = if self.cursor_y + self.row_h + GAP <= ATLAS_SIZE {
                self.cursor_y + self.row_h + GAP
            } else {
                ATLAS_SIZE
            };
            self.cursor_x = 0;
            self.row_h = 0;
        }
        if self.cursor_y as u64 + hu as u64 + GAP as u64 > ATLAS_SIZE as u64 || w as u64 + GAP as u64
            > ATLAS_SIZE as u64 {
            return None;
        }
        let cx: u32 = self.cursor_x;
        let cy: u32 = self.cursor_y;
        copy_bitmap(&mut self.pixels, bitmap, rgba, w, h, hu, cx, cy);
        let info = GlyphInfo {
            uv_x: 2 * cx + 1,
            uv_y: 2 * cy + 1,
            uv_w: 2 * w - 2,
            uv_h: 2 * hu - 2,
            width: w as i32,
            height: hu as i32,
            bearing_x,
            bearing_y,
            advance,
        };
        self.cursor_x = cx + w + GAP;
        if hu > self.row_h {
            self.row_h = hu;
        }
        self.dirty = true;
        Some(info)
    }
}

fn key_of(code: u32, bold: bool, italic: bool) -> (k: u64)
    ensures
        k == id_key(code, bold, italic),
{
    code as u64 * 4 + (if bold { 2 } else { 0 }) + (if italic { 1 } else { 0 })
}

/// The placement of a glyph without ink: no size, but its advance.
pub open spec fn blank_glyph(r: Raster) -> GlyphInfo {
    GlyphInfo {
        uv_x: 0,
        uv_y: 0,
        uv_w: 0,
        uv_h: 0,
        width: 0,
        height: 0,
        bearing_x: r.bearing_x,
        bearing_y: r.bearing_y,
        advance: r.advance,
    }
}

impl GlyphAtlas {
    /// What the atlas knows of the character `ch` in the given style:
    /// `None` if it was not asked for yet, else what `glyph` returned.
    pub fn cached(&self, ch: char, bold: bool, italic: bool) -> (r: Option<Option<GlyphInfo>>)
        ensures
            r == (if self.cache@.contains_key(char_key(ch, bold, italic)) {
                Some(self.cache@[char_key(ch, bold, italic)])
            } else {
                None
            }),
    {
        let key = key_of(ch as u32, bold, italic);
        match self.cache.get(&key) {
            Some(v) => Some(*v),
            None => None,
        }
    }

    /// What the atlas knows of the glyph index `id` in the given style.
    pub fn cached_by_id(&self, id: u32, bold: bool, italic: bool) -> (r: Option<Option<GlyphInfo>>)
        ensures
            r == (if self.id_cache@.contains_key(id_key(id, bold, italic)) {
                Some(self.id_cache@[id_key(id, bold, italic)])
            } else {
                None
            }),
    {
        let key = key_of(id, bold, italic);
        match self.id_cache.get(&key) {
            Some(v) => Some(*v),
            None => None,
        }
    }

    /// Put a rasterised outline into the atlas.
    fn place_outline(&mut self, outline: Option<Raster>) -> (r: Option<GlyphInfo>)
        requires
            old(self).wf(),
            outline matches Some(o) ==> o.wf(),
        ensures
            final(self).wf(),
            final(self).grown_from(old(self)),
            final(self).cache == old(self).cache,
            final(self).id_cache == old(self).id_cache,
            final(self).drawn(old(self), old(self).outline_size(outline), r),
            outline is None ==> r is None && *final(self) == *old(self),
            outline matches Some(o) ==> {
                if o.width == 0 || o.height == 0 {
                    r == Some(blank_glyph(o)) && *final(self) == *old(self)
                } else {
                    r matches Some(g) ==> final(self).holds(g, o.coverage@, false, o.width as int)
                        && g.bearing_x == o.bearing_x && g.bearing_y == o.bearing_y && g.advance
                        == o.advance
                }
            },
    {
        match outline {
            None => None,
            Some(o) => {
                if o.width == 0 || o.height == 0 {
                    Some(
                        GlyphInfo {
                            uv_x: 0,
                            uv_y: 0,
                            uv_w: 0,
                            uv_h: 0,
                            width: 0,
                            height: 0,
                            bearing_x: o.bearing_x,
                            bearing_y: o.bearing_y,
                            advance: o.advance,
                        },
                    )
                } else {
                    self.blit_bitmap(
                        &o.coverage,
                        false,
                        o.width,
                        o.height,
                        o.bearing_x,
                        o.bearing_y,
                        o.advance,
                    )
                }
            },
        }
    }

    /// The glyph of the character `ch` in the given style. What was
    /// returned once is returned again. A synthetic character is drawn
    /// here, as large as a cell; for any other, `outline` is what the font
    /// gives: `None` if the font has no outline for it. The result is
    /// `None` as well if the atlas is full.
    pub fn glyph(&mut self, ch: char, bold: bool, italic: bool, outline: Option<Raster>) -> (r:
        Option<GlyphInfo>)
        requires
            old(self).wf(),
            outline matches Some(o) ==> o.wf(),
        ensures
            final(self).wf(),
            final(self).grown_from(old(self)),
            final(self).id_cache == old(self).id_cache,
            final(self).cache@ == old(self).cache@.insert(char_key(ch, bold, italic), r),
            old(self).cache@.contains_key(char_key(ch, bold, italic)) ==> r == old(self).cache@[char_key(
                ch,
                bold,
                italic,
            )] && final(self).pixels == old(self).pixels && final(self).cursor() == old(
                self,
            ).cursor() && final(self).dirty == old(self).dirty,
            is_box_char(ch as u32) ==> (r matches Some(g) ==> final(self).is_cell_glyph(g)),
            !old(self).cache@.contains_key(char_key(ch, bold, italic)) ==> final(self).drawn(
                old(self),
                old(self).ink_size(ch, outline),
                r,
            ),
            !old(self).cache@.contains_key(char_key(ch, bold, italic)) ==> {
                if is_box_char(ch as u32) {
                    r matches Some(g) ==> exists|bitmap: Seq<u8>|
                        {
                            &&& #[trigger] final(self).holds(g, bitmap, true, old(self).cell_w as int)
                            &&& is_canvas(bitmap, old(self).cell_w as int, old(self).cell_h as int)
                            &&& forall|x: int, y: int|
                                in_canvas(old(self).cell_w as int, old(self).cell_h as int, x, y)
                                    ==> #[trigger] alpha_at(bitmap, old(self).cell_w as int, x, y)
                                    == glyph_alpha(
                                    ch as u32,
                                    old(self).cell_w as int,
                                    old(self).cell_h as int,
                                    x,
                                    y,
                                )
                        }
                } else {
                    match outline {
                        None => r is None,
                        Some(o) => if o.width == 0 || o.height == 0 {
                            r == Some(blank_glyph(o))
                        } else {
                            r matches Some(g) ==> final(self).holds(
                                g,
                                o.coverage@,
                                false,
                                o.width as int,
                            ) && g.advance == o.advance && g.bearing_x == o.bearing_x
                                && g.bearing_y == o.bearing_y
                        },
                    }
                }
            },
    {
        let key = key_of(ch as u32, bold, italic);
        assert(key == char_key(ch, bold, italic));
        match self.cache.get(&key) {
            Some(v) => {
                let r = *v;
                proof {
                    assert(self.cache@.insert(key, r) =~= self.cache@);
                }
                return r;
            },
            None => {},
        }
        let ghost mut shown: Seq<u8> = Seq::empty();
        let info = if is_synthetic_char(ch) {
            match render_box_char(ch, self.cell_w, self.cell_h) {
                Some(bitmap) => {
                    assert(self.cell_w * self.cell_h <= 2048 * 2048) by (nonlinear_arith)
                        requires
                            self.cell_w <= 2048,
                            self.cell_h <= 2048,
                    ;
                    proof {
                        shown = bitmap@;
                    }
                    self.blit_bitmap(
                        &bitmap,
                        true,
                        self.cell_w,
                        self.cell_h,
                        0,
                        self.ascender,
                        self.cell_w as i32,
                    )
                },
                None => None,
            }
        } else {
            proof {
                if outline is Some {
                    shown = outline->0.coverage@;
                }
            }
            self.place_outline(outline)
        };
        let ghost mid = *self;
        self.cache.insert(key, info);
        proof {
            if info is Some && (is_box_char(ch as u32) || (outline is Some && outline->0.width > 0
                && outline->0.height > 0)) {
                let g = info->0;
                let rgba = is_box_char(ch as u32);
                let w = if rgba { self.cell_w as int } else { outline->0.width as int };
                assert(mid.holds(g, shown, rgba, w));
                assert(self.holds(g, shown, rgba, w));
            }
            assert forall|c: char, b: bool, i: bool|
                is_box_char(c as u32) && self.cache@.contains_key(
                    #[trigger] char_key(c, b, i),
                ) implies (self.cache@[char_key(c, b, i)] matches Some(g) ==> self.is_cell_glyph(
                g,
            )) by {
                if char_key(c, b, i) == key {
                    lemma_char_key(c, b, i, ch, bold, italic);
                } else {
                    assert(mid.cache@.contains_key(char_key(c, b, i)));
                }
            }
        }
        info
    }

    /// The glyph with the index `id` of the font in the given style, as
    /// `glyph` gives it for a character that is not synthetic.
    pub fn glyph_by_id(&mut self, id: u32, bold: bool, italic: bool, outline: Option<Raster>) -> (r:
        Option<GlyphInfo>)
        requires
            old(self).wf(),
            outline matches Some(o) ==> o.wf(),
        ensures
            final(self).wf(),
            final(self).grown_from(old(self)),
            final(self).cache == old(self).cache,
            final(self).id_cache@ == old(self).id_cache@.insert(id_key(id, bold, italic), r),
            old(self).id_cache@.contains_key(id_key(id, bold, italic)) ==> r == old(
                self,
            ).id_cache@[id_key(id, bold, italic)] && final(self).pixels == old(self).pixels
                && final(self).cursor() == old(self).cursor() && final(self).dirty == old(
                self,
            ).dirty,
            !old(self).id_cache@.contains_key(id_key(id, bold, italic)) ==> final(self).drawn(
                old(self),
                old(self).outline_size(outline),
                r,
            ),
            !old(self).id_cache@.contains_key(id_key(id, bold, italic)) ==> match outline {
                None => r is None,
                Some(o) => if o.width == 0 || o.height == 0 {
                    r == Some(blank_glyph(o))
                } else {
                    r matches Some(g) ==> final(self).holds(g, o.coverage@, false, o.width as int)
                        && g.advance == o.advance && g.bearing_x == o.bearing_x && g.bearing_y
                        == o.bearing_y
                },
            },
    {
        let key = key_of(id, bold, italic);
        match self.id_cache.get(&key) {
            Some(v) => {
                let r = *v;
                proof {
                    assert(self.id_cache@.insert(key, r) =~= self.id_cache@);
                }
                return r;
            },
            None => {},
        }
        let info = self.place_outline(outline);
        let ghost mid = *self;
        self.id_cache.insert(key, info);
        proof {
            if info is Some && outline is Some && outline->0.width > 0 && outline->0.height > 0 {
                let g = info->0;
                let o = outline->0;
                assert(mid.holds(g, o.coverage@, false, o.width as int));
                assert(self.holds(g, o.coverage@, false, o.width as int));
            }
        }
        info
    }

    /// Draw every synthetic character into the atlas: box drawing and block
    /// elements, braille patterns and the Powerline arrows. Where none of
    /// them was asked for before, they lie one behind the other from the
    /// cursor on.
    pub fn prewarm_synthetic(&mut self)
        requires
            old(self).wf(),
        ensures
            final(self).wf(),
            final(self).warm(),
            final(self).grown_from(old(self)),
            final(self).id_cache == old(self).id_cache,
            (forall|cp: u32|
                is_box_char(cp) ==> !old(self).cache@.contains_key(
                    #[trigger] id_key(cp, false, false),
                )) ==> {
                &&& final(self).cursor() == packed(
                    old(self).cursor(),
                    old(self).cell_w as int,
                    old(self).cell_h as int,
                    420,
                )
                &&& forall|cp: u32|
                    is_box_char(cp) ==> final(self).cache@[#[trigger] id_key(cp, false, false)]
                        == cell_glyph(
                        packed(
                            old(self).cursor(),
                            old(self).cell_w as int,
                            old(self).cell_h as int,
                            box_index(cp),
                        ),
                        old(self).cell_w,
                        old(self).cell_h,
                        old(self).ascender,
                    )
            },
    {
        let ghost c0 = self.cursor();
        let ghost w = self.cell_w as int;
        let ghost h = self.cell_h as int;
        let ghost all_fresh = forall|cp: u32|
            is_box_char(cp) ==> !self.cache@.contains_key(#[trigger] id_key(cp, false, false));
        self.prewarm_range(0x2500, 0x259F);
        let ghost first = *self;
        self.prewarm_range(0x2800, 0x28FF);
        let ghost second = *self;
        self.prewarm_range(0xE0B0, 0xE0B3);
        proof {
            if all_fresh {
                assert(old(self).fresh(0x2500, 0x259F));
                assert(first.fresh(0x2800, 0x28FF)) by {
                    assert forall|cp: u32| 0x2800 <= cp <= 0x28FF implies !first.cache@.contains_key(
                        #[trigger] id_key(cp, false, false),
                    ) by {
                        assert(is_box_char(cp));
                    }
                }
                assert(second.fresh(0xE0B0, 0xE0B3)) by {
                    assert forall|cp: u32| 0xE0B0 <= cp <= 0xE0B3 implies !second.cache@.contains_key(
                        #[trigger] id_key(cp, false, false),
                    ) by {
                        assert(is_box_char(cp));
                        assert(!first.cache@.contains_key(id_key(cp, false, false)));
                    }
                }
                lemma_packed_add(c0, w, h, 160, 256);
                lemma_packed_add(c0, w, h, 416, 4);
                assert forall|cp: u32| is_box_char(cp) implies self.cache@[#[trigger] id_key(
                    cp,
                    false,
                    false,
                )] == cell_glyph(
                    packed(c0, w, h, box_index(cp)),
                    self.cell_w,
                    self.cell_h,
                    self.ascender,
                ) by {
                    if cp <= 0x259F {
                        lemma_packed_add(c0, w, h, 0, (cp - 0x2500) as nat);
                        assert(first.cache@.contains_key(id_key(cp, false, false)));
                        assert(second.cache@.contains_key(id_key(cp, false, false)));
                    } else if cp <= 0x28FF {
                        lemma_packed_add(c0, w, h, 160, (cp - 0x2800) as nat);
                        assert(second.cache@.contains_key(id_key(cp, false, false)));
                    } else {
                        lemma_packed_add(c0, w, h, 416, (cp - 0xE0B0) as nat);
                    }
                }
            }
        }
    }

    fn prewarm_range(&mut self, first: u32, last: u32)
        requires
            old(self).wf(),
            first <= last < 0xF000,
            first > 0xDFFF || last < 0xD800,
            forall|cp: u32| first <= cp <= last ==> is_box_char(cp),
        ensures
            final(self).wf(),
            final(self).grown_from(old(self)),
            final(self).id_cache == old(self).id_cache,
            forall|cp: u32|
                first <= cp <= last ==> final(self).cache@.contains_key(
                    #[trigger] id_key(cp, false, false),
                ),
            forall|k: u64| #[trigger]
                final(self).cache@.contains_key(k) ==> old(self).cache@.contains_key(k) || exists|
                    cp: u32,
                |
                    first <= cp <= last && k == id_key(cp, false, false),
            old(self).fresh(first as int, last as int) ==> final(self).lined_up(
                old(self).cursor(),
                first,
                last + 1,
                0,
            ) && final(self).cursor() == packed(
                old(self).cursor(),
                old(self).cell_w as int,
                old(self).cell_h as int,
                (last + 1 - first) as nat,
            ),
    {
        let ghost c0 = self.cursor();
        let ghost was_fresh = self.fresh(first as int, last as int);
        let ghost w = self.cell_w as int;
        let ghost h = self.cell_h as int;
        let mut cp: u32 = first;
        while cp <= last
            invariant
                first <= cp <= last + 1,
                last < 0xF000,
                first > 0xDFFF || last < 0xD800,
                forall|c: u32| first <= c <= last ==> is_box_char(c),
                self.wf(),
                self.grown_from(old(self)),
                self.id_cache == old(self).id_cache,
                w == self.cell_w && h == self.cell_h,
                forall|c: u32|
                    first <= c < cp ==> self.cache@.contains_key(#[trigger] id_key(c, false, false)),
                forall|k: u64| #[trigger]
                    self.cache@.contains_key(k) ==> old(self).cache@.contains_key(k) || exists|
                        c: u32,
                    |
                        first <= c < cp && k == id_key(c, false, false),
                was_fresh ==> self.fresh(cp as int, last as int) && self.lined_up(
                    c0,
                    first,
                    cp as int,
                    0,
                ) && self.cursor() == packed(c0, w, h, (cp - first) as nat),
            decreases last + 1 - cp,
        {
            let ghost before = *self;
            match crate::text::char_of(cp) {
                Some(ch) => {
                    let r = self.glyph(ch, false, false, None);
                    assert(char_key(ch, false, false) == id_key(cp, false, false));
                    assert(self.cache@.contains_key(id_key(cp, false, false)));
                    proof {
                        if was_fresh {
                            assert(!before.cache@.contains_key(id_key(cp, false, false)));
                            assert(before.ink_size(ch, None) == Some((w, h)));
                            let at = packed(c0, w, h, (cp - first) as nat);
                            assert(before.cursor() == at);
                            assert(self.cursor() == advanced(at, w, h));
                            assert(self.cursor() == packed(c0, w, h, (cp + 1 - first) as nat));
                            match r {
                                Some(g) => {
                                    assert(self.is_cell_glyph(g));
                                    assert(placed_at(g, at, w, h));
                                    assert(Some(g) == cell_glyph(
                                        at,
                                        self.cell_w,
                                        self.cell_h,
                                        self.ascender,
                                    ));
                                },
                                None => {
                                    assert(cell_glyph(at, self.cell_w, self.cell_h, self.ascender)
                                        is None);
                                },
                            }
                            assert(self.cache@[id_key(cp, false, false)] == r);
                        }
                    }
                },
                None => {},
            }
            proof {
                assert forall|c: u32| first <= c < cp implies self.cache@.contains_key(
                    #[trigger] id_key(c, false, false),
                ) by {
                    assert(before.cache@.contains_key(id_key(c, false, false)));
                }
                assert forall|k: u64| #[trigger] self.cache@.contains_key(k) implies old(
                    self,
                ).cache@.contains_key(k) || exists|c: u32|
                    first <= c < cp + 1 && k == id_key(c, false, false) by {
                    if k != id_key(cp, false, false) {
                        assert(before.cache@.contains_key(k));
                    }
                }
                if was_fresh {
                    assert forall|c: u32| cp + 1 <= c <= last implies !self.cache@.contains_key(
                        #[trigger] id_key(c, false, false),
                    ) by {
                        assert(!before.cache@.contains_key(id_key(c, false, false)));
                        assert(id_key(c, false, false) != id_key(cp, false, false));
                    }
                    assert forall|c: u32| first <= c < cp + 1 implies self.cache@.contains_key(
                        #[trigger] id_key(c, false, false),
                    ) && self.cache@[id_key(c, false, false)] == cell_glyph(
                        packed(c0, w, h, (0 + c - first) as nat),
                        self.cell_w,
                        self.cell_h,
                        self.ascender,
                    ) by {
                        if c < cp {
                            assert(before.cache@.contains_key(id_key(c, false, false)));
                            assert(id_key(c, false, false) != id_key(cp, false, false));
                        }
                    }
                }
            }
            cp = cp + 1;
        }
    }

    /// The rows of the texture to upload again, if any texel changed since
    /// the last call: all rows down to just below the current row.
    pub fn take_dirty_rows(&mut self) -> (rows: Option<u32>)
        requires
            old(self).wf(),
        ensures
            !final(self).dirty,
            final(self).pixels == old(self).pixels,
            final(self).cache == old(self).cache,
            final(self).id_cache == old(self).id_cache,
            final(self).wf(),
            final(self).grown_from(old(self)),
            rows == (if old(self).dirty {
                Some(
                    if old(self).cursor_y + old(self).row_h + 1 < ATLAS_SIZE {
                        (old(self).cursor_y + old(self).row_h + 1) as u32
                    } else {
                        ATLAS_SIZE
                    },
                )
            } else {
                None
            }),
    {
        if self.dirty {
            self.dirty = false;
            let rows: u32 = self.cursor_y + self.row_h + 1;
            Some(if rows < ATLAS_SIZE { rows } else { ATLAS_SIZE })
        } else {
            None
        }
    }
}

fn is_synthetic_char(ch: char) -> (b: bool)
    ensures
        b == is_box_char(ch as u32),
{
    let cp: u32 = ch as u32;
    0x2500 <= cp && cp <= 0x259F || 0x2800 <= cp && cp <= 0x28FF || 0xE0B0 <= cp && cp <= 0xE0B3
}

/// Two characters in two styles have the same key only if they are the
/// same character in the same style.
pub proof fn lemma_char_key(a: char, ab: bool, ai: bool, b: char, bb: bool, bi: bool)
    requires
        char_key(a, ab, ai) == char_key(b, bb, bi),
    ensures
        a == b,
        ab == bb,
        ai == bi,
{
    assert(a as u32 == b as u32);
}

/// Set one texel to white with the alpha `a`.
fn put_texel(pixels: &mut Vec<u8>, x: u32, y: u32, a: u8)
    requires
        old(pixels).len() == 2048 * 2048 * 4,
        x < 2048,
        y < 2048,
    ensures
        final(pixels).len() == 2048 * 2048 * 4,
        forall|tx: int, ty: int|
            in_atlas(tx, ty) ==> #[trigger] texel(final(pixels)@, tx, ty) == (if tx == x && ty == y {
                (255u8, 255u8, 255u8, a)
            } else {
                texel(old(pixels)@, tx, ty)
            }),
{
    let base: usize = (y as usize * 2048 + x as usize) * 4;
    pixels.set(base, 0xFF);
    pixels.set(base + 1, 0xFF);
    pixels.set(base + 2, 0xFF);
    pixels.set(base + 3, a);
    proof {
        assert forall|tx: int, ty: int| in_atlas(tx, ty) implies #[trigger] texel(pixels@, tx, ty)
            == (if tx == x && ty == y {
            (255u8, 255u8, 255u8, a)
        } else {
            texel(old(pixels)@, tx, ty)
        }) by {
            let i = texel_index(tx, ty);
            assert(0 <= i && i + 4 <= 2048 * 2048 * 4);
            if tx != x || ty != y {
                assert(i + 4 <= base || base + 4 <= i);
            }
        }
    }
}

/// Copy the first `hu` rows of a bitmap to the texels from `(cx, cy)` on.
fn copy_bitmap(
    pixels: &mut Vec<u8>,
    bitmap: &Vec<u8>,
    rgba: bool,
    w: u32,
    h: u32,
    hu: u32,
    cx: u32,
    cy: u32,
)
    requires
        old(pixels).len() == 2048 * 2048 * 4,
        1 <= w <= 0x7FFF,
        hu <= h <= 0x7FFF,
        cx + w <= 2048,
        cy + hu <= 2048,
        bitmap.len() == (if rgba { w as int * h as int * 4 } else { w as int * h as int }),
    ensures
        final(pixels).len() == 2048 * 2048 * 4,
        forall|x: int, y: int|
            in_atlas(x, y) ==> #[trigger] texel(final(pixels)@, x, y) == (if cx <= x < cx + w && cy
                <= y < cy + hu {
                (255u8, 255u8, 255u8, source_alpha(bitmap@, rgba, w as int, x - cx, y - cy))
            } else {
                texel(old(pixels)@, x, y)
            }),
{
    let ghost start = pixels@;
    let mut py: u32 = 0;
    while py < hu
        invariant
            py <= hu <= h <= 0x7FFF,
            cx + w <= 2048,
            cy + hu <= 2048,
            1 <= w <= 0x7FFF,
            pixels.len() == 2048 * 2048 * 4,
            bitmap.len() == (if rgba { w as int * h as int * 4 } else { w as int * h as int }),
            forall|x: int, y: int|
                in_atlas(x, y) ==> #[trigger] texel(pixels@, x, y) == (if cx <= x < cx + w && cy <= y
                    < cy + py {
                    (255u8, 255u8, 255u8, source_alpha(bitmap@, rgba, w as int, x - cx, y - cy))
                } else {
                    texel(start, x, y)
                }),
        decreases hu - py,
    {
        let mut px: u32 = 0;
        while px < w
            invariant
                py < hu <= h <= 0x7FFF,
                px <= w,
                cx + w <= 2048,
                cy + hu <= 2048,
                1 <= w <= 0x7FFF,
                pixels.len() == 2048 * 2048 * 4,
                bitmap.len() == (if rgba { w as int * h as int * 4 } else { w as int * h as int }),
                forall|x: int, y: int|
                    in_atlas(x, y) ==> #[trigger] texel(pixels@, x, y) == (if (cx <= x < cx + w && cy
                        <= y < cy + py) || (y == cy + py && cx <= x < cx + px) {
                        (255u8, 255u8, 255u8, source_alpha(bitmap@, rgba, w as int, x - cx, y - cy))
                    } else {
                        texel(start, x, y)
                    }),
            decreases w - px,
        {
            proof {
                lemma_source_index(w as int, h as int, px as int, py as int);
                assert(py * w <= 0x7FFF * 0x7FFF) by (nonlinear_arith)
                    requires
                        0 <= py <= 0x7FFF,
                        0 <= w <= 0x7FFF,
                ;
            }
            let src: usize = (py * w + px) as usize;
            let alpha: u8 = if rgba { bitmap[src * 4 + 3] } else { bitmap[src] };
            put_texel(pixels, cx + px, cy + py, alpha);
            px = px + 1;
        }
        py = py + 1;
    }
}

} // verus!

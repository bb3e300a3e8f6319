use trixie::atlas::{GlyphAtlas, GlyphInfo, Raster};
use trixie::pixelui::{Color, DrawCmd, Rect, Style};
use trixie::renderer::{
    background_instances, glyph_instances, uncached_glyphs, BgInst, GlyphInst, ShapedRun,
};
use trixie::shaper::{cluster_widths, is_synthetic, segment_row, segment_str, ShapedGlyph, Shaper};

fn texel(a: &GlyphAtlas, x: usize, y: usize) -> [u8; 4] {
    let i = (y * 2048 + x) * 4;
    [a.pixels[i], a.pixels[i + 1], a.pixels[i + 2], a.pixels[i + 3]]
}

#[test]
fn synthetic_ranges() {
    for cp in [0x2500, 0x257F, 0x2580, 0x259F, 0x2800, 0x28FF, 0xE0B0, 0xE0B3] {
        assert!(is_synthetic(cp));
    }
    for cp in [0x24FF, 0x25A0, 0x27FF, 0x2900, 0xE0AF, 0xE0B4, 0x41] {
        assert!(!is_synthetic(cp));
    }
}

#[test]
fn runs_change_with_style_and_kind() {
    let runs = segment_str("ab\u{2500}\u{2502}c", true, false);
    let got: Vec<(usize, &str, bool, bool, bool)> =
        runs.iter().map(|r| (r.start_col, r.text.as_str(), r.bold, r.italic, r.synthetic)).collect();
    assert_eq!(
        got,
        vec![
            (0, "ab", true, false, false),
            (2, "\u{2500}\u{2502}", true, false, true),
            (4, "c", true, false, false)
        ]
    );
    let runs = segment_row(&[('a', false, false), ('b', true, false), ('c', true, false), ('d', true, true)]);
    let got: Vec<(usize, &str)> = runs.iter().map(|r| (r.start_col, r.text.as_str())).collect();
    assert_eq!(got, vec![(0, "a"), (1, "bc"), (3, "d")]);
    assert!(segment_str("", false, false).is_empty());
    assert!(segment_row(&[]).is_empty());
}

#[test]
fn ligature_counts_for_its_characters() {
    // "=>" shaped to one glyph at cluster 0
    let g = cluster_widths("=>", &vec![(900, 0)]);
    assert_eq!(g.len(), 1);
    assert_eq!((g[0].glyph_id, g[0].cluster_width), (900, 2));
    // clusters are byte offsets, widths are characters
    let g = cluster_widths("\u{e9}\u{e9}a\u{20ac}", &vec![(1, 0), (2, 2), (3, 5)]);
    let w: Vec<usize> = g.iter().map(|x| x.cluster_width).collect();
    assert_eq!(w, vec![1, 2, 1]);
    // a glyph whose cluster holds no character still counts for one
    let g = cluster_widths("ab", &vec![(1, 0), (2, 0), (3, 1)]);
    let w: Vec<usize> = g.iter().map(|x| x.cluster_width).collect();
    assert_eq!(w, vec![1, 1, 1]);
    assert!(cluster_widths("ab", &vec![]).is_empty());
}

#[test]
fn bad_font_is_refused() {
    assert!(Shaper::try_new(vec![1, 2, 3]).is_none());
    assert!(Shaper::try_new(Vec::new()).is_none());
}

#[test]
fn atlas_packs_left_to_right() {
    let mut a = GlyphAtlas::new(8, 16, 12);
    assert!(a.dirty);
    // the synthetic characters were drawn in code point order from the top left
    let first = a.cached('\u{2500}', false, false).unwrap().unwrap();
    assert_eq!(
        first,
        GlyphInfo { uv_x: 1, uv_y: 1, uv_w: 14, uv_h: 30, width: 8, height: 16, bearing_x: 0, bearing_y: 12, advance: 8 }
    );
    let second = a.cached('\u{2501}', false, false).unwrap().unwrap();
    assert_eq!((second.uv_x, second.uv_y), (21, 1));
    // 204 cells of 8 + 2 texels fill a row; the next row starts 18 texels down.
    // 160 box and block characters come first, then the braille patterns.
    let last = a.cached('\u{282b}', false, false).unwrap().unwrap();
    assert_eq!((last.uv_x, last.uv_y), (4061, 1));
    let wrapped = a.cached('\u{282c}', false, false).unwrap().unwrap();
    assert_eq!((wrapped.uv_x, wrapped.uv_y), (1, 37));
    // the light horizontal line: white all over, covered in row 8 of the cell only
    assert_eq!(texel(&a, 3, 8), [255, 255, 255, 255]);
    assert_eq!(texel(&a, 3, 7), [255, 255, 255, 0]);
    // the gap between two glyphs stays clear
    assert_eq!(texel(&a, 8, 8), [0, 0, 0, 0]);
    assert_eq!(texel(&a, 10, 8), [255, 255, 255, 255]);
    // asking again gives the same place, whatever outline comes along
    let again = a.glyph('\u{2500}', false, false, None);
    assert_eq!(again, Some(first));
    // bold and italic make no difference to a synthetic glyph but its place
    let bold = a.glyph('\u{2500}', true, false, None).unwrap();
    assert_eq!((bold.width, bold.height, bold.bearing_x, bold.bearing_y, bold.advance), (8, 16, 0, 12, 8));
    assert_ne!((bold.uv_x, bold.uv_y), (first.uv_x, first.uv_y));
    assert_eq!(a.cached('\u{2500}', false, false), Some(Some(first)));
}

#[test]
fn atlas_keeps_font_glyphs() {
    let mut a = GlyphAtlas::empty(8, 16, 12);
    assert_eq!(a.cached('a', false, false), None);
    let raster = |w: u32, h: u32, cov: Vec<u8>| Raster {
        width: w,
        height: h,
        bearing_x: 1,
        bearing_y: 9,
        advance: 7,
        coverage: cov,
    };
    let g = a.glyph('a', false, false, Some(raster(2, 3, vec![10, 20, 30, 40, 50, 60]))).unwrap();
    assert_eq!(
        g,
        GlyphInfo { uv_x: 1, uv_y: 1, uv_w: 2, uv_h: 4, width: 2, height: 3, bearing_x: 1, bearing_y: 9, advance: 7 }
    );
    assert_eq!(texel(&a, 0, 0), [255, 255, 255, 10]);
    assert_eq!(texel(&a, 1, 2), [255, 255, 255, 60]);
    assert_eq!(texel(&a, 2, 0), [0, 0, 0, 0]);
    assert_eq!((a.cursor_x, a.cursor_y, a.row_h), (4, 0, 3));
    // a glyph without ink keeps its advance and takes no room
    let space = a.glyph(' ', false, false, Some(raster(0, 0, vec![]))).unwrap();
    assert_eq!((space.width, space.height, space.uv_w, space.advance), (0, 0, 0, 7));
    assert_eq!(a.cursor_x, 4);
    // no outline: remembered as missing
    assert_eq!(a.glyph('b', false, false, None), None);
    assert_eq!(a.glyph('b', false, false, Some(raster(1, 1, vec![9]))), None);
    assert_eq!(a.cached('b', false, false), Some(None));
    // glyphs by index have a cache of their own; tall glyphs are cut at two cells
    let tall = a.glyph_by_id(97, false, false, Some(raster(1, 40, vec![1; 40]))).unwrap();
    assert_eq!((tall.height, tall.uv_x, tall.uv_h), (32, 9, 62));
    assert_eq!(a.cached_by_id(97, false, false), Some(Some(tall)));
    assert_eq!(a.cached_by_id(97, true, false), None);
    assert_eq!(a.glyph_by_id(97, false, false, None), Some(tall));
    // the first glyph has not moved
    assert_eq!(a.cached('a', false, false), Some(Some(g)));
    assert_eq!(texel(&a, 0, 0), [255, 255, 255, 10]);
    // rows to upload: down to just below the current row
    assert_eq!(a.take_dirty_rows(), Some(33));
    assert_eq!(a.take_dirty_rows(), None);
    a.glyph('c', false, false, Some(raster(1, 1, vec![9])));
    assert_eq!(a.take_dirty_rows(), Some(33));
}

#[test]
fn full_atlas_drops_glyphs() {
    let mut a = GlyphAtlas::empty(2046, 2046, 0);
    let first = a.glyph('\u{2588}', false, false, None).unwrap();
    assert_eq!((first.width, first.height), (2046, 2046));
    assert_eq!(texel(&a, 2045, 2045), [255, 255, 255, 255]);
    assert_eq!(a.glyph('\u{2500}', false, false, None), None);
    assert_eq!(a.cached('\u{2500}', false, false), Some(None));
    assert_eq!(a.cached('\u{2588}', false, false), Some(Some(first)));
}

#[test]
fn backgrounds_of_commands() {
    let red = Color(255, 0, 0, 255);
    let cmds = vec![
        DrawCmd::FillRect { rect: Rect::new(1, 2, 3, 4), color: red },
        DrawCmd::FillRect { rect: Rect::new(1, 2, 3, 4), color: Color::reset() },
        DrawCmd::StrokeRect { rect: Rect::new(10, 20, 30, 40), color: red, thickness: 2 },
        DrawCmd::HLine { x: 1, y: 2, w: 9, color: red },
        DrawCmd::VLine { x: 1, y: 2, h: 9, color: red },
        DrawCmd::Text { x: 5, y: 6, text: "abc".into(), style: Style::default().bg(red), max_width: Some(20) },
        DrawCmd::Text { x: 5, y: 6, text: "abc".into(), style: Style::default().bg(red), max_width: None },
        DrawCmd::Text { x: 5, y: 6, text: "abc".into(), style: Style::default(), max_width: None },
    ];
    let b = |x, y, w, h| BgInst { x, y, w, h, color: red };
    assert_eq!(
        background_instances(&cmds, 8, 16),
        vec![
            b(1, 2, 3, 4),
            b(10, 20, 30, 2),
            b(10, 58, 30, 2),
            b(10, 20, 2, 40),
            b(38, 20, 2, 40),
            b(1, 2, 9, 1),
            b(1, 2, 1, 9),
            b(5, 6, 20, 16),
            b(5, 6, 24, 16),
        ]
    );
}

#[test]
fn glyph_quads_follow_the_pen() {
    let mut a = GlyphAtlas::new(8, 16, 12);
    let wide = Raster { width: 5, height: 7, bearing_x: 1, bearing_y: 9, advance: 6, coverage: vec![255; 35] };
    let g = a.glyph_by_id(40, false, false, Some(wide)).unwrap();
    let blank = Raster { width: 0, height: 0, bearing_x: 0, bearing_y: 0, advance: 4, coverage: vec![] };
    a.glyph_by_id(3, false, false, Some(blank));
    let line = a.cached('\u{2500}', false, false).unwrap().unwrap();
    let runs = vec![
        ShapedRun { synthetic: true, bold: false, italic: false, chars: vec!['\u{2500}', '\u{2500}'], glyphs: vec![] },
        ShapedRun {
            synthetic: false,
            bold: false,
            italic: false,
            chars: vec![],
            glyphs: vec![
                ShapedGlyph { glyph_id: 40, cluster_width: 2 },
                ShapedGlyph { glyph_id: 3, cluster_width: 1 },
                ShapedGlyph { glyph_id: 77, cluster_width: 1 },
                ShapedGlyph { glyph_id: 40, cluster_width: 1 },
            ],
        },
    ];
    assert_eq!(uncached_glyphs(&a, &runs), vec![(77, false, false)]);
    let fg = Color(1, 2, 3, 255);
    let mut out = Vec::new();
    glyph_instances(&a, &runs, 100, 50, fg, None, &mut out);
    let cell = |x: i64| GlyphInst { x, y: 50, w: 8, h: 16, u0: line.uv_x as u64, v0: 1, u1: line.uv_x as u64 + 14, v1: 31, fg };
    let glyph = |x: i64| GlyphInst {
        x,
        y: 53,
        w: 5,
        h: 7,
        u0: g.uv_x as u64,
        v0: g.uv_y as u64,
        u1: (g.uv_x + 8) as u64,
        v1: (g.uv_y + 12) as u64,
        fg,
    };
    // cells at 100 and 108; the ligature at 116 + 1, advancing 2 * 6; the blank
    // advances 4; the glyph that is not in the atlas takes a cell; then 140 + 1
    assert_eq!(out, vec![cell(100), cell(108), glyph(117), glyph(141)]);
    // the text ends where the pen reaches the maximal width
    let mut cut = Vec::new();
    glyph_instances(&a, &runs, 100, 50, fg, Some(16), &mut cut);
    assert_eq!(cut, vec![cell(100), cell(108)]);
    let mut cut = Vec::new();
    glyph_instances(&a, &runs, 100, 50, fg, Some(17), &mut cut);
    assert_eq!(cut, vec![cell(100), cell(108), glyph(117)]);
    let mut none = vec![cell(0)];
    glyph_instances(&a, &runs, 100, 50, fg, Some(0), &mut none);
    assert_eq!(none, vec![cell(0)]);
}

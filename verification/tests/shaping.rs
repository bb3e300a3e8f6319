use trixie::atlas::{GlyphAtlas, Raster};
use trixie::pixelui::{Color, DrawCmd, Rect, Style};
use trixie::renderer::{shape_text, BgInst, GlyphInst, UiRenderer};
use trixie::shaper::{ShapedGlyph, Shaper};

// A font built in memory: glyph 1 for `=`, glyph 2 for `>`, and glyph 3, the
// ligature that the feature `liga` puts in place of `=` followed by `>`.

fn words(ws: &[u16]) -> Vec<u8> {
    ws.iter().flat_map(|w| w.to_be_bytes()).collect()
}

fn head() -> Vec<u8> {
    let mut t = words(&[
        1, 0, // version 1.0
        0, 0, // revision
        0, 0, // checksum adjustment
        0x5F0F, 0x3CF5, // magic number
        0,      // flags
        1000,   // units per em
    ]);
    t.extend_from_slice(&[0u8; 16]); // created, modified
    t.extend(words(&[
        0, 0, 1000, 1000, // bounding box
        0,    // mac style
        8,    // smallest readable size
        2,    // direction hint
        0,    // short offsets in `loca`
        0,    // glyph data format
    ]));
    assert_eq!(t.len(), 54);
    t
}

fn hhea() -> Vec<u8> {
    let mut t = words(&[1, 0, 800, 0xFF38, 0]); // version, ascender, descender -200, line gap
    t.extend_from_slice(&[0u8; 24]);
    t.extend(words(&[4])); // number of metrics
    assert_eq!(t.len(), 36);
    t
}

fn maxp() -> Vec<u8> {
    words(&[0, 0x5000, 4]) // version 0.5, four glyphs
}

fn hmtx() -> Vec<u8> {
    words(&[600, 0, 600, 0, 600, 0, 1200, 0]) // advance and bearing of each glyph
}

fn cmap() -> Vec<u8> {
    words(&[
        0, 1, // version, one encoding
        3, 1, 0, 12, // Windows, Unicode BMP, at offset 12
        4, 32, 0, // format 4, length, language
        4, 4, 1, 0, // two segments; search hints
        0x3E, 0xFFFF, // last code of each segment
        0,      // padding
        0x3D, 0xFFFF, // first code of each segment
        0xFFC4, 1, // glyph = code - 60
        0, 0, // no glyph arrays
    ])
}

fn gsub() -> Vec<u8> {
    let mut t = words(&[1, 0, 10, 30, 44]); // version; script, feature and lookup lists
    // Script list at 10: the default script with its default language.
    t.extend(words(&[1]));
    t.extend_from_slice(b"DFLT");
    t.extend(words(&[
        8, // script table, from the list
        4, 0, // default language at 4; no others
        0, 0xFFFF, 1, 0, // no order, no required feature, feature 0
    ]));
    assert_eq!(t.len(), 30);
    // Feature list at 30.
    t.extend(words(&[1]));
    t.extend_from_slice(b"liga");
    t.extend(words(&[
        8, // feature table, from the list
        0, 1, 0, // no parameters, lookup 0
    ]));
    assert_eq!(t.len(), 44);
    // Lookup list at 44.
    t.extend(words(&[
        1, 4, // one lookup, at 4
        4, 0, 1, 8, // ligature substitution, no flags, one subtable at 8
        1, 8, 1, 14, // format 1; coverage at 8; one ligature set at 14
        1, 1, 1, // coverage: format 1, one glyph: `=`
        1, 4, // one ligature, at 4
        3, 2, 2, // glyph 3 for two components, the second of them `>`
    ]));
    t
}

fn font() -> Vec<u8> {
    let tables: Vec<(&[u8; 4], Vec<u8>)> = vec![
        (b"GSUB", gsub()),
        (b"cmap", cmap()),
        (b"head", head()),
        (b"hhea", hhea()),
        (b"hmtx", hmtx()),
        (b"maxp", maxp()),
    ];
    let mut out = words(&[1, 0, tables.len() as u16, 64, 2, 32]);
    let mut offset = 12 + 16 * tables.len();
    let mut body: Vec<u8> = Vec::new();
    for (tag, data) in &tables {
        out.extend_from_slice(*tag);
        out.extend_from_slice(&0u32.to_be_bytes());
        out.extend_from_slice(&(offset as u32).to_be_bytes());
        out.extend_from_slice(&(data.len() as u32).to_be_bytes());
        body.extend_from_slice(data);
        while body.len() % 4 != 0 {
            body.push(0);
        }
        offset = 12 + 16 * tables.len() + body.len();
    }
    out.extend(body);
    out
}

fn glyph(id: u32, width: usize) -> ShapedGlyph {
    ShapedGlyph { glyph_id: id, cluster_width: width }
}

#[test]
fn a_font_is_accepted() {
    assert!(Shaper::try_new(font()).is_some());
    let mut cut = font();
    cut.truncate(40);
    assert!(Shaper::try_new(cut).is_none());
}

#[test]
fn ligature_is_one_glyph_for_two_characters() {
    let shaper = Shaper::try_new(font()).unwrap();
    assert_eq!(shaper.shape("=>"), vec![glyph(3, 2)]);
    assert_eq!(shaper.shape("=>=>"), vec![glyph(3, 2), glyph(3, 2)]);
    assert_eq!(shaper.shape("==>"), vec![glyph(1, 1), glyph(3, 2)]);
}

#[test]
fn plain_characters_are_one_glyph_each() {
    let shaper = Shaper::try_new(font()).unwrap();
    assert_eq!(shaper.shape("="), vec![glyph(1, 1)]);
    assert_eq!(shaper.shape(">="), vec![glyph(2, 1), glyph(1, 1)]);
    assert!(shaper.shape("").is_empty());
    // A character that the font lacks is shown by glyph 0; its width is
    // counted in characters, whatever its length in bytes.
    assert_eq!(shaper.shape("\u{20ac}="), vec![glyph(0, 1), glyph(1, 1)]);
}

#[test]
fn runs_are_shaped_apart() {
    let shaper = Shaper::try_new(font()).unwrap();
    let runs = shape_text(&shaper, "=>\u{2500}=", true, false);
    assert_eq!(runs.len(), 3);
    assert!(!runs[0].synthetic && runs[0].bold && !runs[0].italic);
    assert_eq!(runs[0].chars, vec!['=', '>']);
    assert_eq!(runs[0].glyphs, vec![glyph(3, 2)]);
    assert!(runs[1].synthetic);
    assert_eq!(runs[1].chars, vec!['\u{2500}']);
    assert!(runs[1].glyphs.is_empty());
    assert!(!runs[2].synthetic);
    assert_eq!(runs[2].glyphs, vec![glyph(1, 1)]);
}

#[test]
fn text_command_becomes_quads() {
    let atlas = GlyphAtlas::new(8, 16, 12);
    let shaper = Shaper::try_new(font()).unwrap();
    let mut r = UiRenderer::new(atlas, shaper, 640, 480);
    let fg = Color(10, 20, 30, 255);
    let cmds = vec![
        DrawCmd::FillRect { rect: Rect::new(0, 0, 640, 16), color: Color(1, 1, 1, 255) },
        DrawCmd::Text {
            x: 10,
            y: 20,
            text: "=>=".to_string(),
            style: Style::default().fg(fg),
            max_width: None,
        },
    ];
    // The text needs the ligature and the plain glyph, in this order.
    assert_eq!(r.missing(&cmds), vec![(3, false, false), (1, false, false)]);
    let ligature = Raster { width: 4, height: 2, bearing_x: 0, bearing_y: 6, advance: 7, coverage: vec![9; 8] };
    let plain = Raster { width: 3, height: 2, bearing_x: 1, bearing_y: 5, advance: 7, coverage: vec![8; 6] };
    let g3 = r.atlas.glyph_by_id(3, false, false, Some(ligature)).unwrap();
    let g1 = r.atlas.glyph_by_id(1, false, false, Some(plain)).unwrap();
    assert!(r.missing(&cmds).is_empty());

    let (bg, quads) = r.flush(&cmds);
    assert_eq!(bg, vec![BgInst { x: 0, y: 0, w: 640, h: 16, color: Color(1, 1, 1, 255) }]);
    let quad = |g: trixie::atlas::GlyphInfo, x: i64, y: i64| GlyphInst {
        x,
        y,
        w: g.width,
        h: g.height,
        u0: g.uv_x as u64,
        v0: g.uv_y as u64,
        u1: (g.uv_x + g.uv_w) as u64,
        v1: (g.uv_y + g.uv_h) as u64,
        fg,
    };
    // The ligature stands for two characters: the pen moves on by twice its
    // advance, and the plain glyph sits at its bearing from there.
    assert_eq!(quads, vec![quad(g3, 10, 20 + 12 - 6), quad(g1, 10 + 2 * 7 + 1, 20 + 12 - 5)]);
    assert_eq!((g3.width, g3.height, g1.width, g1.height), (4, 2, 3, 2));
}

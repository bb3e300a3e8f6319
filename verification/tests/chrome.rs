use trixie::cells::{ansi256, CellBuffer, TwmCell};
use trixie::chrome::{
    build_frame_cmds, cell_convert, clock_text, terminal_color, title_label, truncate, TermColor,
};
use trixie::pixelui::{Color, DrawCmd, Rect};
use trixie::twm::{PaneContent, TwmState};

/// The characters that a frame draws, as rows of text.
fn screen(cmds: &[DrawCmd], cols: usize, rows: usize, cw: u32, ch: u32) -> Vec<String> {
    let mut grid = vec![vec![' '; cols]; rows];
    for c in cmds {
        if let DrawCmd::Text { x, y, text, max_width, .. } = c {
            assert_eq!(*max_width, Some(cw));
            assert_eq!(text.chars().count(), 1);
            grid[(*y / ch) as usize][(*x / cw) as usize] = text.chars().next().unwrap();
        }
    }
    grid.into_iter().map(|r| r.into_iter().collect()).collect()
}

fn fill_at(cmds: &[DrawCmd], x: u32, y: u32) -> Option<Color> {
    cmds.iter().find_map(|c| match c {
        DrawCmd::FillRect { rect, color } if rect.x == x && rect.y == y => Some(*color),
        _ => None,
    })
}

#[test]
fn frame_of_a_small_grid() {
    let mut t = TwmState::new(10, 3, 0);
    let cmds = t.build_frame_cmds(8, 16, 80, 48, 1000, 12 * 3600 + 34 * 60 + 56);
    assert_eq!((t.cols, t.rows), (10, 3));
    assert_eq!(t.bar_clock, "12:34:56");
    let rows = screen(&cmds, 10, 3, 8, 16);
    assert_eq!(rows[0], "\u{250c} tr...\u{2500}\u{2500}\u{2510}");
    assert_eq!(rows[1], "\u{2514}\u{2500}\u{2500}\u{2500}\u{2500}\u{2500}\u{2500}\u{2500}\u{2500}\u{2518}");
    // the clock is as wide as the bar and is written last
    assert_eq!(rows[2], " 12:34:56 ");
    // pane cells stand on the pane background, bar cells on the bar background
    assert_eq!(fill_at(&cmds, 8, 0), Some(Color(17, 17, 27, 255)));
    assert_eq!(fill_at(&cmds, 0, 32), Some(Color(24, 24, 37, 255)));
    // the focused pane's border is bold and in the active colour
    let border = cmds.iter().find_map(|c| match c {
        DrawCmd::Text { x: 0, y: 0, style, .. } => Some(*style),
        _ => None,
    });
    let border = border.unwrap();
    assert_eq!(border.fg, Color(180, 190, 254, 255));
    assert!(border.bold);
    assert_eq!(border.bg, Color(0, 0, 0, 0));
}

#[test]
fn frame_fits_the_grid_to_the_viewport() {
    let mut t = TwmState::new(10, 3, 0);
    let cmds = build_frame_cmds(&mut t, 8, 16, 331, 100, 1000, 0);
    assert_eq!((t.cols, t.rows), (41, 6));
    assert!(t.cols as u32 * 8 <= 331 && t.rows as u32 * 16 <= 100);
    for c in &cmds {
        match c {
            DrawCmd::FillRect { rect, .. } => {
                assert!(rect.x + rect.w <= 331 && rect.y + rect.h <= 100);
                assert_eq!((rect.w, rect.h), (8, 16));
            }
            DrawCmd::Text { x, y, .. } => assert!(x + 8 <= 331 && y + 16 <= 100),
            _ => panic!("unexpected command"),
        }
    }
    let rows = screen(&cmds, 41, 6, 8, 16);
    // tabs from the left; the layout's name around the middle and the clock at the
    // right are written over them
    assert_eq!(
        rows[5],
        "  1 \u{2502} 2 \u{2502} 3 \u{2502} 4 \u{2502} [BSP] \u{2502} 7 \u{2502} 8 00:00:00 "
    );
    // the resize started a new animation: the pane is on its way at 1000 ms
    assert!(rows[0].starts_with('\u{250c}'));
}

#[test]
fn shell_pane_shows_a_hint_and_embedded_pane_a_hole() {
    let mut t = TwmState::new(30, 6, 0);
    let cmds = t.build_frame_cmds(8, 16, 240, 96, 1000, 0);
    let rows = screen(&cmds, 30, 6, 8, 16);
    assert_eq!(rows[0], "\u{250c} trixterm [1] \u{25c6} \u{2500}\u{2500}\u{2500}\u{2500}\u{2500}\u{2500}\u{2500}\u{2500}\u{2500}\u{2500}\u{2500}\u{2500}\u{2510}");
    assert_eq!(rows[1], "\u{2502}  trixterm  (no window)     \u{2502}");
    assert_eq!(rows[4], "\u{2514}\u{2500}\u{2500}\u{2500}\u{2500}\u{2500}\u{2500}\u{2500}\u{2500}\u{2500}\u{2500}\u{2500}\u{2500}\u{2500}\u{2500}\u{2500}\u{2500}\u{2500}\u{2500}\u{2500}\u{2500}\u{2500}\u{2500}\u{2500}\u{2500}\u{2500}\u{2500}\u{2500}\u{2500}\u{2518}");

    t.assign_embedded("firefox");
    let cmds = t.build_frame_cmds(8, 16, 240, 96, 2000, 0);
    let rows = screen(&cmds, 30, 6, 8, 16);
    assert!(rows[0].starts_with("\u{250c} firefox [1] \u{f059f} \u{2500}"));
    assert_eq!(rows[1], "\u{2502}                            \u{2502}");
    // inside the pane the cells have no colour of their own
    assert_eq!(fill_at(&cmds, 8, 16), Some(Color(30, 30, 46, 255)));
    assert_eq!(fill_at(&cmds, 0, 16), Some(Color(17, 17, 27, 255)));
}

#[test]
fn fullscreen_pane_hides_the_others() {
    let mut t = TwmState::new(60, 4, 0);
    t.open_shell_pane("two");
    t.build_frame_cmds(8, 16, 480, 64, 1000, 0);
    let both = t.build_frame_cmds(8, 16, 480, 64, 2000, 0);
    let rows = screen(&both, 60, 4, 8, 16);
    assert!(rows[0].contains("[1]") && rows[0].contains("[2]"));
    t.dispatch(&trixie::twm::Action::Fullscreen, 2000);
    let one = t.build_frame_cmds(8, 16, 480, 64, 3000, 0);
    let rows = screen(&one, 60, 4, 8, 16);
    assert!(rows[0].starts_with("\u{250c} two [2] \u{25c6} "));
    assert!(!rows[0].contains("[1]"));
    assert!(rows[0].ends_with('\u{2510}'));
}

#[test]
fn hidden_bar_leaves_the_grid_to_the_panes() {
    let mut t = TwmState::new(10, 3, 0);
    t.bar_visible = false;
    t.dirty = true;
    // the pane starts to grow into the bar's row at 1000 ms and has arrived at 2000
    t.build_frame_cmds(8, 16, 80, 48, 1000, 0);
    let cmds = t.build_frame_cmds(8, 16, 80, 48, 2000, 0);
    let rows = screen(&cmds, 10, 3, 8, 16);
    assert!(rows[2].starts_with('\u{2514}'));
}

#[test]
fn truncate_keeps_room_for_dots() {
    assert_eq!(truncate("hello", 5), "hello");
    assert_eq!(truncate("hello world", 8), "hello...");
    assert_eq!(truncate("hello", 3), "hel");
    assert_eq!(truncate("hello", 0), "");
    assert_eq!(truncate("h\u{e9}llo w\u{f6}rld", 7), "h\u{e9}ll...");
}

#[test]
fn pane_titles() {
    assert_eq!(title_label(&PaneContent::Shell { title: "sh".into() }, 7), " sh [7] \u{25c6} ");
    assert_eq!(
        title_label(&PaneContent::Embedded { app_id: "mpv".into() }, 4294967295),
        " mpv [4294967295] \u{f059f} "
    );
    assert_eq!(title_label(&PaneContent::Empty, 0), " empty [0] ");
}

#[test]
fn clock_is_time_of_day() {
    assert_eq!(clock_text(0), "00:00:00");
    assert_eq!(clock_text(86399), "23:59:59");
    assert_eq!(clock_text(86400 + 3661), "01:01:01");
}

#[test]
fn cell_conversion() {
    let c = cell_convert("x", TermColor::Reset, TermColor::Reset, 0);
    assert_eq!((c.ch, c.fg, c.bg, c.bold, c.italic), ('x', (205, 214, 244), (30, 30, 46), false, false));
    // bold and italic
    let c = cell_convert("ab", TermColor::Rgb(1, 2, 3), TermColor::Black, 0x0005);
    assert_eq!((c.ch, c.fg, c.bg, c.bold, c.italic), ('a', (1, 2, 3), (69, 71, 90), true, true));
    // reversed swaps, then dim halves the text colour
    let c = cell_convert("", TermColor::Rgb(10, 20, 30), TermColor::Rgb(100, 101, 103), 0x0042);
    assert_eq!((c.ch, c.fg, c.bg), (' ', (50, 50, 51), (10, 20, 30)));
    assert_eq!(terminal_color(TermColor::Indexed(196), (0, 0, 0)), (255, 0, 0));
    assert_eq!(terminal_color(TermColor::LightCyan, (0, 0, 0)), (148, 226, 213));
}

#[test]
fn ansi_palette() {
    assert_eq!(ansi256(0), (0, 0, 0));
    assert_eq!(ansi256(7), (192, 192, 192));
    assert_eq!(ansi256(15), (255, 255, 255));
    assert_eq!(ansi256(16), (0, 0, 0));
    assert_eq!(ansi256(17), (0, 0, 95));
    assert_eq!(ansi256(196), (255, 0, 0));
    assert_eq!(ansi256(231), (255, 255, 255));
    assert_eq!(ansi256(232), (8, 8, 8));
    assert_eq!(ansi256(255), (238, 238, 238));
}

#[test]
fn cell_grid_to_draw_commands() {
    let mut b = CellBuffer::new(2, 2);
    assert_eq!(b.cells.len(), 4);
    assert_eq!(b.cells[0].ch, ' ');
    b.cells[1] = TwmCell { ch: 'A', fg: (1, 2, 3), bg: (0, 0, 0), bold: true, italic: false };
    b.cells[2] = TwmCell { ch: ' ', fg: (1, 2, 3), bg: (0, 0, 0), bold: false, italic: false };
    b.cells[3] = TwmCell { ch: '\0', fg: (1, 2, 3), bg: (9, 9, 9), bold: false, italic: false };
    // the viewport cuts the second column to 2 pixels and the second row to 1
    let cmds = b.to_draw_cmds(4, 8, 6, 9);
    assert_eq!(cmds.len(), 4);
    assert!(matches!(&cmds[0], DrawCmd::FillRect { rect, color }
        if *rect == Rect::new(0, 0, 4, 8) && *color == Color(30, 30, 46, 255)));
    assert!(matches!(&cmds[1], DrawCmd::FillRect { rect, color }
        if *rect == Rect::new(4, 0, 2, 8) && *color == Color(0, 0, 0, 255)));
    assert!(matches!(&cmds[2], DrawCmd::Text { x: 4, y: 0, text, style, max_width: Some(4) }
        if text == "A" && style.fg == Color(1, 2, 3, 255) && style.bold && style.bg == Color(0, 0, 0, 0)));
    // the black blank cell is a hole; the NUL cell has a background but no text
    assert!(matches!(&cmds[3], DrawCmd::FillRect { rect, color }
        if *rect == Rect::new(4, 8, 2, 1) && *color == Color(9, 9, 9, 255)));
    // cells that start outside the viewport draw nothing
    assert!(b.to_draw_cmds(4, 8, 4, 8).len() == 1);
    b.resize(3, 1);
    assert_eq!((b.cols, b.rows, b.cells.len()), (3, 1, 3));
    assert_eq!(b.cells[1].ch, 'A');
}

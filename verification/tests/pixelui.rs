use trixie::pixelui::{
    Color, Constraint, Direction, DrawCmd, DrawContext, Layout, Rect, Style,
};
use trixie::widgets::{Block, Input, InputState, List, ListState, Paragraph};

fn ctx(cell_w: u32, cell_h: u32) -> DrawContext {
    DrawContext { cmds: Vec::new(), area: Rect::new(0, 0, 800, 600), cell_w, cell_h }
}

#[test]
fn colours_and_styles() {
    assert_eq!(Color::rgb(1, 2, 3), Color(1, 2, 3, 255));
    assert_eq!(Color::rgba(1, 2, 3, 4), Color(1, 2, 3, 4));
    assert_eq!(Color::default(), Color::reset());
    assert_eq!(Color::reset(), Color(0, 0, 0, 0));
    assert_eq!(Color::cyan(), Color(0, 200, 255, 255));
    let s = Style::default();
    assert_eq!((s.fg, s.bg, s.bold, s.italic), (Color::white(), Color::reset(), false, false));
    let s = s.fg(Color::black()).bg(Color::gray()).bold().italic();
    assert_eq!((s.fg, s.bg, s.bold, s.italic), (Color::black(), Color::gray(), true, true));
}

#[test]
fn rect_area_and_inner() {
    let r = Rect::new(10, 20, 30, 40);
    assert_eq!(r.area(), 1200);
    assert!(!r.is_empty());
    assert!(Rect::new(1, 1, 0, 5).is_empty());
    assert!(Rect::new(1, 1, 5, 0).is_empty());
    assert_eq!(r.inner(5), Rect::new(15, 25, 20, 30));
    // a side that is too short collapses
    assert_eq!(r.inner(16), Rect::new(26, 36, 0, 8));
    assert_eq!(Rect::default(), Rect::new(0, 0, 0, 0));
}

#[test]
fn layout_split() {
    let area = Rect::new(5, 7, 100, 10);
    let cs = [Constraint::Fixed(20), Constraint::Percentage(50), Constraint::Min(5)];
    let out = Layout::split(area, Direction::Horizontal, &cs);
    assert_eq!(
        out,
        vec![Rect::new(5, 7, 20, 10), Rect::new(25, 7, 50, 10), Rect::new(75, 7, 30, 10)]
    );
    let out = Layout::split(area, Direction::Vertical, &[Constraint::Fixed(4), Constraint::Max(3)]);
    assert_eq!(out, vec![Rect::new(5, 7, 100, 4), Rect::new(5, 11, 100, 3)]);
    assert!(Layout::split(area, Direction::Vertical, &[]).is_empty());
    assert_eq!(Layout::resolve(100, &cs), vec![20, 50, 30]);
    // fixed slots take what is left; flexible slots share the rest equally
    assert_eq!(
        Layout::resolve(10, &[Constraint::Fixed(8), Constraint::Fixed(8), Constraint::Percentage(500)]),
        vec![8, 2, 0]
    );
    assert_eq!(
        Layout::resolve(10, &[Constraint::Min(1), Constraint::Max(2), Constraint::Min(7)]),
        vec![3, 2, 7]
    );
    let two = Layout::split2(area, Direction::Horizontal, &[Constraint::Fixed(30), Constraint::Min(0)]);
    assert_eq!(two, [Rect::new(5, 7, 30, 10), Rect::new(35, 7, 70, 10)]);
}

#[test]
fn draw_context_skips_empty_things() {
    let mut c = ctx(8, 16);
    assert_eq!(c.area(), Rect::new(0, 0, 800, 600));
    assert_eq!(c.cell_size(), (8, 16));
    c.fill_rect(Rect::new(0, 0, 0, 5), Color::white());
    c.stroke_rect(Rect::new(0, 0, 5, 0), Color::white(), 1);
    c.text(0, 0, "", Style::default(), None);
    assert!(c.cmds.is_empty());
    c.fill_rect(Rect::new(1, 2, 3, 4), Color::white());
    c.stroke_rect(Rect::new(1, 2, 3, 4), Color::gray(), 2);
    c.text(5, 6, "hi", Style::default(), Some(9));
    c.hline(1, 2, 3, Color::cyan());
    c.vline(4, 5, 6, Color::cyan());
    assert_eq!(c.cmds.len(), 5);
    assert!(matches!(&c.cmds[0], DrawCmd::FillRect { rect, color }
        if *rect == Rect::new(1, 2, 3, 4) && *color == Color::white()));
    assert!(matches!(&c.cmds[1], DrawCmd::StrokeRect { thickness: 2, .. }));
    assert!(matches!(&c.cmds[2], DrawCmd::Text { x: 5, y: 6, text, max_width: Some(9), .. } if text == "hi"));
    assert!(matches!(&c.cmds[3], DrawCmd::HLine { x: 1, y: 2, w: 3, .. }));
    assert!(matches!(&c.cmds[4], DrawCmd::VLine { x: 4, y: 5, h: 6, .. }));
}

#[test]
fn block_draws_border_and_title() {
    let mut c = ctx(8, 16);
    let b = Block::new().title("ab").bg(Color::black()).border_color(Color::cyan());
    assert_eq!(b.inner(Rect::new(10, 10, 100, 50)), Rect::new(12, 12, 96, 46));
    c.render_widget(b, Rect::new(10, 10, 100, 50));
    assert_eq!(c.cmds.len(), 4);
    assert!(matches!(&c.cmds[0], DrawCmd::FillRect { rect, color }
        if *rect == Rect::new(10, 10, 100, 50) && *color == Color::black()));
    assert!(matches!(&c.cmds[1], DrawCmd::StrokeRect { rect, color, thickness: 1 }
        if *rect == Rect::new(10, 10, 100, 50) && *color == Color::cyan()));
    // title strip: (2 + 2) glyphs of max(8 / 2, 6) pixels
    assert!(matches!(&c.cmds[2], DrawCmd::FillRect { rect, .. } if *rect == Rect::new(11, 10, 24, 1)));
    assert!(matches!(&c.cmds[3], DrawCmd::Text { x: 12, y: 10, text, style, max_width: Some(96) }
        if text == "ab" && style.bold && style.fg == Color::white()));
    // an empty area draws nothing; a plain block only its border
    let mut c = ctx(8, 16);
    c.render_widget(Block::new().title("x"), Rect::new(0, 0, 0, 9));
    assert!(c.cmds.is_empty());
    c.render_widget(Block::default(), Rect::new(0, 0, 9, 9));
    assert_eq!(c.cmds.len(), 1);
}

#[test]
fn paragraph_draws_the_lines_that_fit() {
    let mut c = ctx(8, 16);
    let p = Paragraph::styled(vec![
        ("one".to_string(), Style::default()),
        ("".to_string(), Style::default()),
        ("three".to_string(), Style::default().bold()),
        ("four".to_string(), Style::default()),
    ]);
    c.render_widget(p, Rect::new(4, 10, 50, 50));
    // three lines of 16 pixels fit into 50; the empty one draws nothing
    assert_eq!(c.cmds.len(), 2);
    assert!(matches!(&c.cmds[0], DrawCmd::Text { x: 4, y: 10, text, max_width: Some(50), .. } if text == "one"));
    assert!(matches!(&c.cmds[1], DrawCmd::Text { x: 4, y: 42, text, style, .. } if text == "three" && style.bold));
    let mut c = ctx(8, 16);
    c.render_widget(Paragraph::new("x").no_wrap().block(Block::new()), Rect::new(0, 0, 40, 40));
    assert_eq!(c.cmds.len(), 2);
    assert!(matches!(&c.cmds[1], DrawCmd::Text { x: 2, y: 2, max_width: None, .. }));
}

#[test]
fn list_state_moves_within_bounds() {
    let mut s = ListState::default();
    assert_eq!(s.selected(), None);
    s.next(3);
    assert_eq!(s.selected(), Some(0));
    s.next(3);
    s.next(3);
    s.next(3);
    assert_eq!(s.selected(), Some(2));
    s.prev();
    assert_eq!(s.selected(), Some(1));
    s.prev();
    s.prev();
    assert_eq!(s.selected(), Some(0));
    s.select(None);
    s.prev();
    assert_eq!(s.selected(), Some(0));
    s.select(Some(5));
    s.next(0);
    assert_eq!(s.selected(), Some(0));
}

#[test]
fn list_scrolls_the_selection_into_view() {
    let mut state = ListState { selected: Some(4), offset: 0 };
    let items: Vec<String> = (0..6).map(|i| format!("item{i}")).collect();
    let mut c = ctx(8, 16);
    // 40 pixels: two lines of 16 are in view
    c.render_widget(List::new(items, &mut state), Rect::new(0, 0, 100, 40));
    assert_eq!(state.offset, 3);
    assert_eq!(state.selected, Some(4));
    // line 3 plain, line 4 highlighted, then the scroll bar
    assert_eq!(c.cmds.len(), 6);
    assert!(matches!(&c.cmds[0], DrawCmd::Text { x: 0, y: 0, text, max_width: Some(12), .. } if text == "  "));
    assert!(matches!(&c.cmds[1], DrawCmd::Text { x: 12, y: 0, text, style, max_width: Some(88) }
        if text == "item3" && style.bold && style.bg == Color::reset()));
    assert!(matches!(&c.cmds[2], DrawCmd::FillRect { rect, color }
        if *rect == Rect::new(0, 16, 100, 16) && *color == Color::cyan()));
    assert!(matches!(&c.cmds[3], DrawCmd::Text { x: 0, y: 16, text, style, .. }
        if text == "\u{25b6} " && style.fg == Color::black() && !style.bold));
    assert!(matches!(&c.cmds[4], DrawCmd::Text { x: 12, y: 16, text, .. } if text == "item4"));
    // bar: max(2 * 40 / 6, 2) = 13 high, 3 * 40 / 6 = 20 down
    assert!(matches!(&c.cmds[5], DrawCmd::FillRect { rect, color }
        if *rect == Rect::new(98, 20, 2, 13) && *color == Color::gray()));
    // scrolling up
    state.select(Some(1));
    let mut c = ctx(8, 16);
    c.render_widget(
        List::styled(vec![("a".to_string(), Style::default()); 6], &mut state),
        Rect::new(0, 0, 100, 40),
    );
    assert_eq!(state.offset, 1);
}

#[test]
fn input_state_edits_by_characters() {
    let mut s = InputState::default();
    for ch in "h\u{e9}llo".chars() {
        s.insert(ch);
    }
    assert_eq!((s.value.as_str(), s.cursor), ("h\u{e9}llo", 5));
    s.move_left();
    s.move_left();
    s.insert('X');
    assert_eq!((s.value.as_str(), s.cursor), ("h\u{e9}lXlo", 4));
    s.backspace();
    assert_eq!((s.value.as_str(), s.cursor), ("h\u{e9}llo", 3));
    s.home();
    s.backspace();
    assert_eq!((s.value.as_str(), s.cursor), ("h\u{e9}llo", 0));
    s.move_right();
    s.delete();
    assert_eq!((s.value.as_str(), s.cursor), ("hllo", 1));
    s.end();
    assert_eq!(s.cursor, 4);
    s.delete();
    s.move_right();
    assert_eq!((s.value.as_str(), s.cursor), ("hllo", 4));
    s.clear();
    assert_eq!((s.value.as_str(), s.cursor), ("", 0));
}

#[test]
fn input_shows_the_window_around_the_cursor() {
    let mut s = InputState { value: "abcdefgh".to_string(), cursor: 6 };
    let mut c = ctx(8, 16);
    // 24 pixels wide: room for four characters of six pixels
    c.render_widget(Input::new(&mut s), Rect::new(10, 10, 24, 16));
    assert_eq!(c.cmds.len(), 3);
    assert!(matches!(&c.cmds[0], DrawCmd::Text { x: 10, y: 10, text, max_width: Some(24), .. } if text == "defg"));
    assert!(matches!(&c.cmds[1], DrawCmd::FillRect { rect, color }
        if *rect == Rect::new(28, 10, 6, 16) && *color == Color::cyan()));
    assert!(matches!(&c.cmds[2], DrawCmd::Text { x: 28, y: 10, text, style, max_width: Some(6) }
        if text == "g" && style.fg == Color::black() && style.bg == Color::cyan()));
    // an empty input shows its placeholder in grey and a blank cursor
    let mut e = InputState::default();
    let mut c = ctx(8, 16);
    c.render_widget(Input::new(&mut e).placeholder("type"), Rect::new(0, 0, 60, 16));
    assert!(matches!(&c.cmds[0], DrawCmd::Text { text, style, .. } if text == "type" && style.fg == Color::gray()));
    assert!(matches!(&c.cmds[2], DrawCmd::Text { x: 0, text, .. } if text == " "));
    // without focus there is no cursor
    let mut c = ctx(8, 16);
    c.render_widget(
        Input::new(&mut s).focused(false).style(Style::default().bold()).cursor_color(Color::white()),
        Rect::new(0, 0, 60, 16),
    );
    assert_eq!(c.cmds.len(), 1);
}

#[test]
fn input_state_with_the_cursor_beyond_the_text() {
    let mut s = InputState { value: "ab".to_string(), cursor: 7 };
    // nothing under the cursor
    s.delete();
    assert_eq!((s.value.as_str(), s.cursor), ("ab", 7));
    // a character goes to the end, and the cursor one on
    s.insert('c');
    assert_eq!((s.value.as_str(), s.cursor), ("abc", 8));
    // moving right brings the cursor back to the end
    s.move_right();
    assert_eq!((s.value.as_str(), s.cursor), ("abc", 3));
    s.move_right();
    assert_eq!(s.cursor, 3);
    let mut far = InputState { value: "\u{e9}".to_string(), cursor: usize::MAX };
    far.delete();
    far.move_right();
    assert_eq!((far.value.as_str(), far.cursor), ("\u{e9}", 1));
}

use trixie::geometry::{bsp_split, col_split, row_split, AnimRect, CellRect, Easing};
use trixie::twm::{Action, PaneContent, TwmState};
use trixie::twm_model::Layout;

fn rect(x: u16, y: u16, width: u16, height: u16) -> CellRect {
    CellRect { x, y, width, height }
}

fn ids(t: &TwmState) -> Vec<u32> {
    t.workspaces[t.active_ws].panes.clone()
}

fn three_panes() -> TwmState {
    let mut t = TwmState::new(80, 24, 0);
    t.dispatch(&Action::OpenShell("two".to_string()), 0);
    t.dispatch(&Action::OpenShell("three".to_string()), 0);
    t
}

#[test]
fn new_state_has_one_shell_pane() {
    let t = TwmState::new(80, 24, 0);
    assert_eq!(t.workspaces.len(), 9);
    assert_eq!(t.active_ws, 0);
    assert_eq!(t.panes.len(), 1);
    assert_eq!(t.panes[0].id, 1);
    assert!(matches!(&t.panes[0].content, PaneContent::Shell { title } if title == "trixterm"));
    assert_eq!(ids(&t), vec![1]);
    assert_eq!(t.focused_id(), Some(1));
    assert!(!t.dirty);
    assert!(t.bar_visible);
    assert_eq!(t.workspaces[0].layout, Layout::Bsp);
    assert_eq!(t.workspaces[0].main_ratio_pct, 50);
    // laid out at once: on its way from one cell to the content area
    assert_eq!(t.panes[0].anim.src, rect(0, 0, 1, 1));
    assert_eq!(t.panes[0].anim.dst, rect(0, 0, 80, 23));
    assert_eq!(t.panes[0].anim.dur_ms, 120);
}

#[test]
fn animation_eases_out() {
    let a = AnimRect {
        src: rect(0, 0, 1, 1),
        dst: rect(0, 0, 80, 23),
        start_ms: 1000,
        dur_ms: 120,
        ease: Easing::EaseOutCubic,
    };
    assert_eq!(a.current(1000), rect(0, 0, 1, 1));
    assert_eq!(a.current(500), rect(0, 0, 1, 1));
    // t = 1/2: 1 - (1/2)^3 = 0.875
    assert_eq!(a.current(1060), rect(0, 0, 70, 20));
    assert_eq!(a.current(1120), rect(0, 0, 80, 23));
    assert_eq!(a.current(9999), rect(0, 0, 80, 23));
    assert!(!a.is_done(1119));
    assert!(a.is_done(1120));
}

#[test]
fn other_easings() {
    let mut a = AnimRect {
        src: rect(100, 0, 10, 10),
        dst: rect(0, 40, 10, 10),
        start_ms: 0,
        dur_ms: 100,
        ease: Easing::Linear,
    };
    assert_eq!(a.current(25), rect(75, 10, 10, 10));
    a.ease = Easing::EaseInOut;
    // t = 1/4: t^2 (3 - 2t) = 0.15625
    assert_eq!(a.current(25), rect(84, 6, 10, 10));
    a.dur_ms = 0;
    assert_eq!(a.current(0), rect(0, 40, 10, 10));
    assert!(a.is_done(0));
}

#[test]
fn resting_rect_is_at_least_one_cell() {
    let a = AnimRect::still(rect(3, 4, 0, 0));
    assert_eq!(a.current(0), rect(3, 4, 1, 1));
}

#[test]
fn bsp_halves_alternate() {
    let r = bsp_split(rect(0, 0, 80, 23), 3, 1);
    assert_eq!(r, vec![rect(0, 0, 39, 23), rect(40, 0, 40, 11), rect(40, 12, 40, 11)]);
    assert_eq!(bsp_split(rect(0, 0, 80, 23), 1, 1), vec![rect(0, 0, 80, 23)]);
    assert!(bsp_split(rect(0, 0, 80, 23), 0, 1).is_empty());
    // taller than wide: the first split is horizontal
    let tall = bsp_split(rect(0, 0, 10, 21), 2, 1);
    assert_eq!(tall, vec![rect(0, 0, 10, 10), rect(0, 11, 10, 10)]);
}

#[test]
fn columns_and_rows() {
    let c = col_split(rect(0, 0, 100, 30), 3, 50, 1);
    assert_eq!(c, vec![rect(0, 0, 50, 30), rect(51, 0, 49, 14), rect(51, 15, 49, 14)]);
    let r = row_split(rect(0, 0, 100, 30), 3, 50, 1);
    assert_eq!(r, vec![rect(0, 0, 100, 15), rect(0, 16, 49, 14), rect(50, 16, 49, 14)]);
    assert_eq!(col_split(rect(2, 3, 100, 30), 1, 50, 1), vec![rect(2, 3, 100, 30)]);
    // the main pane is at least four columns wide, three rows high
    assert_eq!(col_split(rect(0, 0, 6, 4), 2, 10, 1)[0], rect(0, 0, 4, 4));
    assert_eq!(row_split(rect(0, 0, 6, 4), 2, 10, 1)[0], rect(0, 0, 6, 3));
}

#[test]
fn next_layout_cycles_in_four() {
    let mut t = TwmState::new(80, 24, 0);
    let mut seen = Vec::new();
    for _ in 0..4 {
        t.dispatch(&Action::NextLayout, 0);
        seen.push(t.workspaces[0].layout);
    }
    assert_eq!(seen, vec![Layout::Columns, Layout::Rows, Layout::Monocle, Layout::Bsp]);
    assert!(t.dirty);
    assert_eq!(Layout::Rows.label(), "Rows");
    assert_eq!(Layout::Bsp.label(), "BSP");
}

#[test]
fn grow_and_shrink_main() {
    let mut t = TwmState::new(80, 24, 0);
    t.dispatch(&Action::GrowMain, 0);
    assert_eq!(t.workspaces[0].main_ratio_pct, 55);
    t.dispatch(&Action::ShrinkMain, 0);
    assert_eq!(t.workspaces[0].main_ratio_pct, 50);
    for _ in 0..20 {
        t.dispatch(&Action::GrowMain, 0);
    }
    assert_eq!(t.workspaces[0].main_ratio_pct, 90);
    for _ in 0..20 {
        t.dispatch(&Action::ShrinkMain, 0);
    }
    assert_eq!(t.workspaces[0].main_ratio_pct, 10);
}

#[test]
fn workspace_switching() {
    let mut t = TwmState::new(80, 24, 0);
    t.dispatch(&Action::Workspace(3), 0);
    assert_eq!(t.active_ws, 2);
    t.dispatch(&Action::Workspace(1), 0);
    assert_eq!(t.active_ws, 0);
    t.dispatch(&Action::Workspace(10), 0);
    assert_eq!(t.active_ws, 0);
    t.dispatch(&Action::Workspace(9), 0);
    assert_eq!(t.active_ws, 8);
    t.dispatch(&Action::Workspace(0), 0);
    assert_eq!(t.active_ws, 0);
    t.dispatch(&Action::PrevWorkspace, 0);
    assert_eq!(t.active_ws, 8);
    t.dispatch(&Action::NextWorkspace, 0);
    assert_eq!(t.active_ws, 0);
}

#[test]
fn open_shell_appends_and_focuses() {
    let t = three_panes();
    assert_eq!(ids(&t), vec![1, 2, 3]);
    assert_eq!(t.focused_id(), Some(3));
    assert_eq!(t.next_id, 4);
    assert!(matches!(t.focused_content(), Some(PaneContent::Shell { title }) if title == "three"));
}

#[test]
fn move_left_then_right_restores_the_order() {
    let mut t = three_panes();
    t.dispatch(&Action::MoveLeft, 0);
    assert_eq!(ids(&t), vec![1, 3, 2]);
    assert_eq!(t.focused_id(), Some(3));
    t.dispatch(&Action::MoveRight, 0);
    assert_eq!(ids(&t), vec![1, 2, 3]);
    // the list is a ring
    t.dispatch(&Action::MoveRight, 0);
    assert_eq!(ids(&t), vec![3, 2, 1]);
}

#[test]
fn close_focuses_the_last_pane() {
    let mut t = three_panes();
    t.dispatch(&Action::Close, 0);
    assert_eq!(ids(&t), vec![1, 2]);
    assert_eq!(t.focused_id(), Some(2));
    assert_eq!(t.panes.len(), 2);
    t.close_pane(1);
    assert_eq!(ids(&t), vec![2]);
    assert_eq!(t.focused_id(), Some(2));
    t.close_focused();
    assert!(ids(&t).is_empty());
    assert_eq!(t.focused_id(), None);
    assert!(t.focused_content().is_none());
    // nothing to close
    t.dispatch(&Action::Close, 0);
    assert!(t.panes.is_empty());
}

#[test]
fn close_by_app_id_takes_the_first_match() {
    let mut t = three_panes();
    t.close_pane_by_app_id("two");
    assert_eq!(ids(&t), vec![1, 3]);
    t.close_pane_by_app_id("nobody");
    assert_eq!(ids(&t), vec![1, 3]);
}

#[test]
fn move_to_workspace() {
    let mut t = three_panes();
    t.dispatch(&Action::MoveToWorkspace(2), 0);
    assert_eq!(ids(&t), vec![1, 2]);
    assert_eq!(t.focused_id(), Some(2));
    assert_eq!(t.workspaces[1].panes, vec![3]);
    assert_eq!(t.workspaces[1].focused, Some(3));
    // to the workspace it is on: nothing happens
    t.dispatch(&Action::MoveToWorkspace(1), 0);
    assert_eq!(ids(&t), vec![1, 2]);
}

#[test]
fn toggles() {
    let mut t = TwmState::new(80, 24, 0);
    t.dispatch(&Action::ToggleBar, 0);
    assert!(!t.bar_visible);
    assert_eq!(t.content_rect(), rect(0, 0, 80, 24));
    t.dispatch(&Action::ToggleBar, 0);
    assert_eq!(t.content_rect(), rect(0, 0, 80, 23));
    assert_eq!(t.bar_rect(), rect(0, 23, 80, 1));
    t.dispatch(&Action::Fullscreen, 0);
    assert!(t.panes[0].fullscreen);
    t.dispatch(&Action::Fullscreen, 0);
    assert!(!t.panes[0].fullscreen);
}

#[test]
fn focus_moves_to_the_nearest_pane_in_the_direction() {
    let mut t = three_panes();
    t.reflow(0);
    // bsp: 1 left, 2 top right, 3 bottom right; all arrived after 120 ms
    let now = 1000;
    assert!(!t.animating(now));
    assert!(t.animating(50));
    assert_eq!(t.focused_id(), Some(3));
    t.dispatch(&Action::FocusUp, now);
    assert_eq!(t.focused_id(), Some(2));
    t.dispatch(&Action::FocusLeft, now);
    assert_eq!(t.focused_id(), Some(1));
    t.dispatch(&Action::FocusLeft, now);
    assert_eq!(t.focused_id(), Some(1));
    t.dispatch(&Action::FocusRight, now);
    assert_eq!(t.focused_id(), Some(2));
    t.dispatch(&Action::FocusDown, now);
    assert_eq!(t.focused_id(), Some(3));
}

#[test]
fn embedded_client_takes_the_focused_shell_pane() {
    let mut t = TwmState::new(80, 24, 0);
    assert_eq!(t.assign_embedded("firefox"), 1);
    assert!(t.panes[0].content.is_embedded());
    assert_eq!(t.panes[0].content.label(), "firefox");
    // the focused pane is taken: the next client gets a new one
    assert_eq!(t.assign_embedded("mpv"), 2);
    assert_eq!(ids(&t), vec![1, 2]);
    t.reflow(0);
    assert_eq!(t.embedded_cell_rect("firefox", 1000), Some(rect(0, 0, 39, 23)));
    assert_eq!(t.embedded_cell_rect("mpv", 1000), Some(rect(40, 0, 40, 23)));
    assert_eq!(t.embedded_cell_rect("nobody", 1000), None);
    let all = t.all_embedded_cell_rects(1000);
    assert_eq!(
        all,
        vec![
            ("firefox".to_string(), rect(0, 0, 39, 23)),
            ("mpv".to_string(), rect(40, 0, 40, 23))
        ]
    );
    t.close_pane_by_app_id("firefox");
    assert_eq!(ids(&t), vec![2]);
}

#[test]
fn resize_lays_out_again() {
    let mut t = TwmState::new(80, 24, 0);
    t.resize(100, 40, 500);
    assert_eq!((t.cols, t.rows), (100, 40));
    assert_eq!(t.panes[0].anim.src, rect(0, 0, 80, 23));
    assert_eq!(t.panes[0].anim.dst, rect(0, 0, 100, 39));
    assert_eq!(t.panes[0].anim.start_ms, 500);
    assert!(!t.dirty);
    assert_eq!(t.cells.cells.len(), 4000);
}

#[test]
fn pane_content_label() {
    assert_eq!(PaneContent::Empty.label(), "empty");
    assert!(!PaneContent::Empty.is_embedded());
    assert!(PaneContent::Embedded { app_id: "x".to_string() }.is_embedded());
}

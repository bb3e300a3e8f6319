//! The tiling window manager as a mathematical state machine: what each
//! operation does to the pane set, the workspaces and the focus.

use crate::geometry::{
    bsp_rects, col_rects, make_rect, row_rects, sat_sub, AnimRect, CellRect, Easing,
};
use vstd::prelude::*;

verus! {

pub type PaneId = u32;

/// Number of workspaces of a window manager.
pub const WORKSPACES: usize = 9;

/// Bounds of the main pane's share, in percent, and the step by which it
/// grows and shrinks.
pub const MIN_RATIO: u8 = 10;

pub const MAX_RATIO: u8 = 90;

pub const RATIO_STEP: u8 = 5;

// ── layout kind ──────────────────────────────────────────────────────────────

#[derive(Debug, Clone, Copy, PartialEq, Eq, Structural)]
pub enum Layout {
    Bsp,
    Columns,
    Rows,
    Monocle,
}

impl Layout {
    pub open spec fn next_spec(self) -> Layout {
        match self {
            Layout::Bsp => Layout::Columns,
            Layout::Columns => Layout::Rows,
            Layout::Rows => Layout::Monocle,
            Layout::Monocle => Layout::Bsp,
        }
    }

    pub open spec fn label_spec(self) -> Seq<char> {
        match self {
            Layout::Bsp => "BSP"@,
            Layout::Columns => "Columns"@,
            Layout::Rows => "Rows"@,
            Layout::Monocle => "Monocle"@,
        }
    }

    /// The layout that follows this one in the cycle.
    pub fn next(&self) -> (l: Layout)
        ensures
            l == self.next_spec(),
    {
        match self {
            Layout::Bsp => Layout::Columns,
            Layout::Columns => Layout::Rows,
            Layout::Rows => Layout::Monocle,
            Layout::Monocle => Layout::Bsp,
        }
    }

    pub fn label(&self) -> (s: &'static str)
        ensures
            s@ == self.label_spec(),
    {
        match self {
            Layout::Bsp => "BSP",
            Layout::Columns => "Columns",
            Layout::Rows => "Rows",
            Layout::Monocle => "Monocle",
        }
    }
}

// ── views ────────────────────────────────────────────────────────────────────

pub enum ContentView {
    Shell { title: Seq<char> },
    Embedded { app_id: Seq<char> },
    Empty,
}

impl ContentView {
    /// Name under which a pane is found: its title, its application id, or
    /// the word "empty".
    pub open spec fn label(self) -> Seq<char> {
        match self {
            ContentView::Shell { title } => title,
            ContentView::Embedded { app_id } => app_id,
            ContentView::Empty => "empty"@,
        }
    }
}

pub struct PaneView {
    pub id: PaneId,
    pub content: ContentView,
    pub anim: AnimRect,
    pub fullscreen: bool,
}

pub struct WorkspaceView {
    pub panes: Seq<PaneId>,
    pub focused: Option<PaneId>,
    pub layout: Layout,
    pub main_ratio_pct: u8,
    pub gap: u16,
}

pub enum ActionView {
    FocusLeft,
    FocusRight,
    FocusUp,
    FocusDown,
    MoveLeft,
    MoveRight,
    Close,
    Workspace(u8),
    MoveToWorkspace(u8),
    NextLayout,
    GrowMain,
    ShrinkMain,
    NextWorkspace,
    PrevWorkspace,
    ToggleBar,
    Fullscreen,
    OpenShell(Seq<char>),
}

/// The state of the window manager that its operations read and change.
pub struct TwmView {
    pub panes: Seq<PaneView>,
    pub workspaces: Seq<WorkspaceView>,
    pub active_ws: int,
    pub cols: u16,
    pub rows: u16,
    pub anim_duration_ms: u32,
    pub anim_ease: Easing,
    pub anim_enabled: bool,
    pub bar_visible: bool,
    pub bar_height: u16,
    pub bar_at_bottom: bool,
    pub next_id: PaneId,
    pub dirty: bool,
}

/// A workspace without panes: BSP layout, the main pane at half.
pub open spec fn empty_workspace(gap: u16) -> WorkspaceView {
    WorkspaceView {
        panes: Seq::empty(),
        focused: None,
        layout: Layout::Bsp,
        main_ratio_pct: 50,
        gap,
    }
}

// ── sequences of ids ─────────────────────────────────────────────────────────

/// `s` without every occurrence of `id`.
pub open spec fn without(s: Seq<PaneId>, id: PaneId) -> Seq<PaneId>
    decreases s.len(),
{
    if s.len() == 0 {
        s
    } else if s.last() == id {
        without(s.drop_last(), id)
    } else {
        without(s.drop_last(), id).push(s.last())
    }
}

/// Position of the first occurrence of `id` in `s`.
pub open spec fn id_pos(s: Seq<PaneId>, id: PaneId) -> Option<int>
    decreases s.len(),
{
    if s.len() == 0 {
        None
    } else if id_pos(s.drop_last(), id) is Some {
        id_pos(s.drop_last(), id)
    } else if s.last() == id {
        Some(s.len() - 1)
    } else {
        None
    }
}

/// Position of the first pane with the id `id`.
pub open spec fn pane_pos(panes: Seq<PaneView>, id: PaneId) -> Option<int>
    decreases panes.len(),
{
    if panes.len() == 0 {
        None
    } else if pane_pos(panes.drop_last(), id) is Some {
        pane_pos(panes.drop_last(), id)
    } else if panes.last().id == id {
        Some(panes.len() - 1)
    } else {
        None
    }
}

/// Position of the first pane that goes by the name `label`.
pub open spec fn label_pos(panes: Seq<PaneView>, label: Seq<char>) -> Option<int>
    decreases panes.len(),
{
    if panes.len() == 0 {
        None
    } else if label_pos(panes.drop_last(), label) is Some {
        label_pos(panes.drop_last(), label)
    } else if panes.last().content.label() == label {
        Some(panes.len() - 1)
    } else {
        None
    }
}

pub open spec fn last_of(s: Seq<PaneId>) -> Option<PaneId> {
    if s.len() > 0 {
        Some(s.last())
    } else {
        None
    }
}

pub open spec fn swapped(s: Seq<PaneId>, i: int, j: int) -> Seq<PaneId> {
    s.update(i, s[j]).update(j, s[i])
}

pub proof fn lemma_id_pos(s: Seq<PaneId>, id: PaneId)
    ensures
        match id_pos(s, id) {
            Some(i) => 0 <= i < s.len() && s[i] == id && forall|j: int| 0 <= j < i ==> s[j] != id,
            None => forall|j: int| 0 <= j < s.len() ==> s[j] != id,
        },
    decreases s.len(),
{
    if s.len() > 0 {
        let d = s.drop_last();
        lemma_id_pos(d, id);
        assert forall|j: int| 0 <= j < d.len() implies #[trigger] s[j] == d[j] by {}
        match id_pos(d, id) {
            Some(i) => {
                assert(s[i] == d[i]);
            },
            None => {},
        }
    }
}

pub proof fn lemma_pane_pos(panes: Seq<PaneView>, id: PaneId)
    ensures
        match pane_pos(panes, id) {
            Some(i) => 0 <= i < panes.len() && panes[i].id == id && forall|j: int|
                0 <= j < i ==> panes[j].id != id,
            None => forall|j: int| 0 <= j < panes.len() ==> panes[j].id != id,
        },
    decreases panes.len(),
{
    if panes.len() > 0 {
        let d = panes.drop_last();
        lemma_pane_pos(d, id);
        assert forall|j: int| 0 <= j < d.len() implies #[trigger] panes[j] == d[j] by {}
        match pane_pos(d, id) {
            Some(i) => {
                assert(panes[i] == d[i]);
            },
            None => {},
        }
    }
}

pub proof fn lemma_label_pos(panes: Seq<PaneView>, label: Seq<char>)
    ensures
        match label_pos(panes, label) {
            Some(i) => 0 <= i < panes.len() && panes[i].content.label() == label && forall|j: int|
                0 <= j < i ==> panes[j].content.label() != label,
            None => forall|j: int| 0 <= j < panes.len() ==> panes[j].content.label() != label,
        },
    decreases panes.len(),
{
    if panes.len() > 0 {
        let d = panes.drop_last();
        lemma_label_pos(d, label);
        assert forall|j: int| 0 <= j < d.len() implies #[trigger] panes[j] == d[j] by {}
        match label_pos(d, label) {
            Some(i) => {
                assert(panes[i] == d[i]);
            },
            None => {},
        }
    }
}

/// What `without` keeps: exactly the other ids, each as often and in the
/// order in which it stood.
pub proof fn lemma_without(s: Seq<PaneId>, id: PaneId)
    ensures
        without(s, id).len() <= s.len(),
        forall|x: PaneId| #[trigger] without(s, id).contains(x) <==> s.contains(x) && x != id,
        s.no_duplicates() ==> without(s, id).no_duplicates(),
        !s.contains(id) ==> without(s, id) == s,
    decreases s.len(),
{
    if s.len() > 0 {
        let d = s.drop_last();
        let l = s.last();
        lemma_without(d, id);
        let r = without(d, id);
        assert(s =~= d.push(l));
        assert forall|x: PaneId| #[trigger] without(s, id).contains(x) <==> s.contains(x) && x
            != id by {
            if without(s, id).contains(x) {
                let k = choose|k: int| 0 <= k < without(s, id).len() && without(s, id)[k] == x;
                if l != id && k == r.len() {
                    assert(s[s.len() - 1] == x);
                } else {
                    assert(r[k] == x);
                    assert(r.contains(x));
                    let m = choose|m: int| 0 <= m < d.len() && d[m] == x;
                    assert(s[m] == x);
                }
            }
            if s.contains(x) && x != id {
                let k = choose|k: int| 0 <= k < s.len() && s[k] == x;
                if k == s.len() - 1 {
                    assert(without(s, id)[r.len() as int] == x);
                } else {
                    assert(d[k] == x);
                    assert(d.contains(x));
                    assert(r.contains(x));
                    let m = choose|m: int| 0 <= m < r.len() && r[m] == x;
                    assert(without(s, id)[m] == x);
                }
            }
        }
        if s.no_duplicates() {
            assert(d.no_duplicates());
            if l != id {
                assert(!r.contains(l)) by {
                    if r.contains(l) {
                        assert(d.contains(l));
                        let m = choose|m: int| 0 <= m < d.len() && d[m] == l;
                        assert(s[m] == s[s.len() - 1]);
                    }
                }
                assert forall|i: int, j: int|
                    0 <= i < r.len() + 1 && 0 <= j < r.len() + 1 && i != j implies r.push(l)[i]
                    != r.push(l)[j] by {
                    if i == r.len() {
                        assert(r.contains(r[j]));
                    } else if j == r.len() {
                        assert(r.contains(r[i]));
                    }
                }
            }
        }
        if !s.contains(id) {
            assert(l != id) by {
                assert(s[s.len() - 1] == l);
            }
            assert(!d.contains(id)) by {
                if d.contains(id) {
                    let m = choose|m: int| 0 <= m < d.len() && d[m] == id;
                    assert(s[m] == id);
                }
            }
        }
    }
}

/// Pane ids are unique and below the next id to be given out.
pub open spec fn ids_ok(panes: Seq<PaneView>, next_id: PaneId) -> bool {
    &&& forall|i: int| 0 <= i < panes.len() ==> (#[trigger] panes[i]).id < next_id
    &&& forall|i: int, j: int|
        0 <= i < panes.len() && 0 <= j < panes.len() && i != j ==> (#[trigger] panes[i]).id != (
        #[trigger] panes[j]).id
}

/// A workspace lists existing panes, each once; its focus, if any, is one of
/// them; its main share is within bounds.
pub open spec fn workspace_ok(panes: Seq<PaneView>, w: WorkspaceView) -> bool {
    &&& w.panes.no_duplicates()
    &&& forall|x: PaneId| #[trigger] w.panes.contains(x) ==> pane_pos(panes, x) is Some
    &&& w.focused matches Some(id) ==> w.panes.contains(id)
    &&& MIN_RATIO <= w.main_ratio_pct <= MAX_RATIO
}

/// No pane is listed by two workspaces.
pub open spec fn disjoint(ws: Seq<WorkspaceView>) -> bool {
    forall|k: int, m: int, x: PaneId|
        0 <= k < ws.len() && 0 <= m < ws.len() && k != m && #[trigger] ws[k].panes.contains(x)
            ==> !(#[trigger] ws[m].panes.contains(x))
}

// ── well-formedness ──────────────────────────────────────────────────────────

impl TwmView {
    pub open spec fn active(self) -> WorkspaceView {
        self.workspaces[self.active_ws]
    }

    pub open spec fn has_pane(self, id: PaneId) -> bool {
        pane_pos(self.panes, id) is Some
    }

    /// The state is consistent: nine workspaces, one of them active; pane
    /// ids are unique and older than the next id; every workspace lists
    /// existing panes, each once and in one workspace only; a workspace's
    /// focus is one of its own panes; the main share is within its bounds.
    pub open spec fn wf(self) -> bool {
        &&& self.workspaces.len() == WORKSPACES
        &&& 0 <= self.active_ws < WORKSPACES
        &&& ids_ok(self.panes, self.next_id)
        &&& forall|k: int|
            0 <= k < self.workspaces.len() ==> workspace_ok(
                self.panes,
                #[trigger] self.workspaces[k],
            )
        &&& disjoint(self.workspaces)
    }

    pub open spec fn with_active(self, w: WorkspaceView) -> TwmView {
        TwmView { workspaces: self.workspaces.update(self.active_ws, w), ..self }
    }

    // ── panes ────────────────────────────────────────────────────────────────

    /// A new pane with the given content joins the active workspace and
    /// takes the focus.
    pub open spec fn open_pane(self, content: ContentView) -> TwmView {
        let id = self.next_id;
        let w = self.active();
        TwmView {
            panes: self.panes.push(
                PaneView {
                    id,
                    content,
                    anim: AnimRect {
                        src: CellRect { x: 0, y: 0, width: 0, height: 0 },
                        dst: CellRect { x: 0, y: 0, width: 0, height: 0 },
                        start_ms: 0,
                        dur_ms: 0,
                        ease: Easing::EaseOutCubic,
                    },
                    fullscreen: false,
                },
            ),
            workspaces: self.workspaces.update(
                self.active_ws,
                WorkspaceView { panes: w.panes.push(id), focused: Some(id), ..w },
            ),
            next_id: (id + 1) as u32,
            dirty: true,
            ..self
        }
    }

    /// The focused pane of the active workspace can take an embedded client:
    /// it exists and holds a shell or nothing.
    pub open spec fn focused_slot(self) -> Option<int> {
        match self.active().focused {
            Some(fid) => match pane_pos(self.panes, fid) {
                Some(i) => if self.panes[i].content is Embedded {
                    None
                } else {
                    Some(i)
                },
                None => None,
            },
            None => None,
        }
    }

    /// The pane that `assign_embedded` gives the client.
    pub open spec fn assigned_id(self) -> PaneId {
        match self.focused_slot() {
            Some(i) => self.panes[i].id,
            None => self.next_id,
        }
    }

    /// The client `app_id` takes over the focused pane if that holds a shell
    /// or nothing, else a new pane.
    pub open spec fn assign_embedded(self, app_id: Seq<char>) -> TwmView {
        match self.focused_slot() {
            Some(i) => TwmView {
                panes: self.panes.update(
                    i,
                    PaneView { content: ContentView::Embedded { app_id }, ..self.panes[i] },
                ),
                dirty: true,
                ..self
            },
            None => self.open_pane(ContentView::Embedded { app_id }),
        }
    }

    /// Workspace `w` once the pane `id` is gone: without it in the list, and
    /// with the focus on the last pane left if it was on `id`.
    pub open spec fn drop_from(w: WorkspaceView, id: PaneId) -> WorkspaceView {
        let kept = without(w.panes, id);
        WorkspaceView {
            panes: kept,
            focused: if w.focused == Some(id) {
                last_of(kept)
            } else {
                w.focused
            },
            ..w
        }
    }

    /// The pane `id` is removed from the pane set and from every workspace.
    pub open spec fn close_pane(self, id: PaneId) -> TwmView {
        TwmView {
            panes: match pane_pos(self.panes, id) {
                Some(i) => self.panes.remove(i),
                None => self.panes,
            },
            workspaces: Seq::new(
                self.workspaces.len(),
                |k: int| Self::drop_from(self.workspaces[k], id),
            ),
            dirty: true,
            ..self
        }
    }

    /// The first pane that goes by `label` is closed, if there is one.
    pub open spec fn close_by_label(self, label: Seq<char>) -> TwmView {
        match label_pos(self.panes, label) {
            Some(i) => self.close_pane(self.panes[i].id),
            None => self,
        }
    }

    pub open spec fn close_focused(self) -> TwmView {
        match self.active().focused {
            Some(id) => self.close_pane(id),
            None => self,
        }
    }

    // ── geometry ─────────────────────────────────────────────────────────────

    /// The part of the grid that panes share: all of it but the bar.
    pub open spec fn content_rect(self) -> CellRect {
        if !self.bar_visible {
            make_rect(0, 0, self.cols, self.rows)
        } else if self.bar_at_bottom {
            make_rect(0, 0, self.cols, sat_sub(self.rows as int, self.bar_height as int) as u16)
        } else {
            make_rect(
                0,
                self.bar_height,
                self.cols,
                sat_sub(self.rows as int, self.bar_height as int) as u16,
            )
        }
    }

    pub open spec fn bar_rect(self) -> CellRect {
        if self.bar_at_bottom {
            make_rect(
                0,
                sat_sub(self.rows as int, self.bar_height as int) as u16,
                self.cols,
                self.bar_height,
            )
        } else {
            make_rect(0, 0, self.cols, self.bar_height)
        }
    }

    /// The layout arithmetic of the active workspace stays within 16 bits.
    pub open spec fn fits(self) -> bool {
        let n = self.active().panes.len() as int;
        let gap = self.active().gap as int;
        &&& n <= 0xFFFF
        &&& self.cols + 4 + n * gap <= 0xFFFF
        &&& self.rows + self.bar_height + 4 + n * gap <= 0xFFFF
    }

    /// Target rectangle of each pane of the active workspace, in list order.
    pub open spec fn targets(self) -> Seq<CellRect> {
        let w = self.active();
        let area = self.content_rect();
        let n = w.panes.len();
        match w.layout {
            Layout::Bsp => bsp_rects(area, n, w.gap, area.width >= area.height),
            Layout::Columns => col_rects(area, n, w.main_ratio_pct, w.gap),
            Layout::Rows => row_rects(area, n, w.main_ratio_pct, w.gap),
            Layout::Monocle => Seq::new(n, |i: int| area),
        }
    }

    pub open spec fn anim_dur(self) -> u32 {
        if self.anim_enabled {
            self.anim_duration_ms
        } else {
            0
        }
    }

    /// A pane sent towards `dst` at time `now_ms`: if it is not there yet, a
    /// new animation starts from where the pane is now.
    pub open spec fn retarget(self, p: PaneView, dst: CellRect, now_ms: u64) -> PaneView {
        let cur = p.anim.current_at(now_ms);
        if cur != dst {
            PaneView {
                anim: AnimRect {
                    src: cur,
                    dst,
                    start_ms: now_ms,
                    dur_ms: self.anim_dur(),
                    ease: self.anim_ease,
                },
                ..p
            }
        } else {
            p
        }
    }

    /// The pane set after the first `k` panes of the active workspace were
    /// sent to their targets.
    pub open spec fn retargeted(self, rects: Seq<CellRect>, now_ms: u64, k: nat) -> Seq<PaneView>
        decreases k,
    {
        if k == 0 {
            self.panes
        } else {
            let before = self.retargeted(rects, now_ms, (k - 1) as nat);
            match pane_pos(before, self.active().panes[k - 1]) {
                Some(i) => before.update(i, self.retarget(before[i], rects[k - 1], now_ms)),
                None => before,
            }
        }
    }

    /// Every pane of the active workspace is sent to its place in the
    /// layout, and the state is clean.
    pub open spec fn reflow(self, now_ms: u64) -> TwmView {
        TwmView {
            panes: self.retargeted(self.targets(), now_ms, self.active().panes.len()),
            dirty: false,
            ..self
        }
    }

    pub open spec fn resize(self, cols: u16, rows: u16, now_ms: u64) -> TwmView {
        (TwmView { cols, rows, dirty: true, ..self }).reflow(now_ms)
    }

    // ── focus ────────────────────────────────────────────────────────────────

    /// Centre of a rectangle along one axis.
    pub open spec fn mid(origin: u16, extent: u16) -> int {
        origin + extent / 2
    }

    /// A pane centred on `(rx, ry)` lies in the direction `(dx, dy)` of one
    /// centred on `(cx, cy)`.
    pub open spec fn toward(dx: int, dy: int, cx: int, cy: int, rx: int, ry: int) -> bool {
        (dx > 0 && rx > cx) || (dx < 0 && rx < cx) || (dy > 0 && ry > cy) || (dy < 0 && ry < cy)
    }

    pub open spec fn manhattan(cx: int, cy: int, rx: int, ry: int) -> int {
        (if rx >= cx {
            rx - cx
        } else {
            cx - rx
        }) + (if ry >= cy {
            ry - cy
        } else {
            cy - ry
        })
    }

    /// The nearest pane in the direction `(dx, dy)` among the first `k` of
    /// the active workspace, with its distance; of several equally near, the
    /// first.
    pub open spec fn nearest(
        self,
        from: PaneId,
        cx: int,
        cy: int,
        dx: int,
        dy: int,
        now_ms: u64,
        k: nat,
    ) -> Option<(PaneId, int)>
        decreases k,
    {
        if k == 0 {
            None
        } else {
            let before = self.nearest(from, cx, cy, dx, dy, now_ms, (k - 1) as nat);
            let id = self.active().panes[k - 1];
            match pane_pos(self.panes, id) {
                Some(i) => {
                    let r = self.panes[i].anim.current_at(now_ms);
                    let rx = Self::mid(r.x, r.width);
                    let ry = Self::mid(r.y, r.height);
                    let d = Self::manhattan(cx, cy, rx, ry);
                    if id != from && Self::toward(dx, dy, cx, cy, rx, ry) && (match before {
                        Some(b) => d < b.1,
                        None => true,
                    }) {
                        Some((id, d))
                    } else {
                        before
                    }
                },
                None => before,
            }
        }
    }

    /// The focus moves to the nearest pane in the direction `(dx, dy)`, if
    /// there is one.
    pub open spec fn focus_dir(self, dx: int, dy: int, now_ms: u64) -> TwmView {
        match self.active().focused {
            Some(fid) => match pane_pos(self.panes, fid) {
                Some(i) => {
                    let cur = self.panes[i].anim.current_at(now_ms);
                    let cx = Self::mid(cur.x, cur.width);
                    let cy = Self::mid(cur.y, cur.height);
                    match self.nearest(fid, cx, cy, dx, dy, now_ms, self.active().panes.len()) {
                        Some(best) => (TwmView { dirty: true, ..self }).with_active(
                            WorkspaceView { focused: Some(best.0), ..self.active() },
                        ),
                        None => self,
                    }
                },
                None => self,
            },
            None => self,
        }
    }

    /// The focused pane changes places with its neighbour in the list, the
    /// list taken as a ring.
    pub open spec fn swap_focused(w: WorkspaceView, forward: bool) -> WorkspaceView {
        let n = w.panes.len() as int;
        match w.focused {
            Some(fid) => match id_pos(w.panes, fid) {
                Some(cur) => {
                    let tgt = if forward {
                        (cur + 1) % n
                    } else {
                        (cur + n - 1) % n
                    };
                    WorkspaceView { panes: swapped(w.panes, cur, tgt), ..w }
                },
                None => w,
            },
            None => w,
        }
    }

    pub open spec fn move_focused(self, forward: bool) -> TwmView {
        let w = self.active();
        (TwmView { dirty: true, ..self }).with_active(
            if w.panes.len() >= 2 {
                Self::swap_focused(w, forward)
            } else {
                w
            },
        )
    }

    /// The focused pane leaves the active workspace for workspace `idx` and
    /// has the focus there.
    pub open spec fn send_focused(self, idx: int) -> TwmView {
        if idx != self.active_ws && 0 <= idx < self.workspaces.len() {
            match self.active().focused {
                Some(id) => {
                    let here = self.active();
                    let kept = without(here.panes, id);
                    let there = self.workspaces[idx];
                    TwmView {
                        workspaces: self.workspaces.update(
                            self.active_ws,
                            WorkspaceView { panes: kept, focused: last_of(kept), ..here },
                        ).update(
                            idx,
                            WorkspaceView { panes: there.panes.push(id), focused: Some(id), ..there },
                        ),
                        dirty: true,
                        ..self
                    }
                },
                None => self,
            }
        } else {
            self
        }
    }

    pub open spec fn grown(pct: u8) -> u8 {
        if pct + RATIO_STEP >= MAX_RATIO {
            MAX_RATIO
        } else {
            (pct + RATIO_STEP) as u8
        }
    }

    pub open spec fn shrunk(pct: u8) -> u8 {
        if pct <= MIN_RATIO + RATIO_STEP {
            MIN_RATIO
        } else {
            (pct - RATIO_STEP) as u8
        }
    }

    pub open spec fn toggle_fullscreen(self) -> TwmView {
        TwmView {
            panes: match self.active().focused {
                Some(id) => match pane_pos(self.panes, id) {
                    Some(i) => self.panes.update(
                        i,
                        PaneView { fullscreen: !self.panes[i].fullscreen, ..self.panes[i] },
                    ),
                    None => self.panes,
                },
                None => self.panes,
            },
            dirty: true,
            ..self
        }
    }

    /// The state after one action at time `now_ms`.
    pub open spec fn step(self, action: ActionView, now_ms: u64) -> TwmView {
        match action {
            ActionView::FocusLeft => self.focus_dir(-1, 0, now_ms),
            ActionView::FocusRight => self.focus_dir(1, 0, now_ms),
            ActionView::FocusUp => self.focus_dir(0, -1, now_ms),
            ActionView::FocusDown => self.focus_dir(0, 1, now_ms),
            ActionView::MoveLeft => self.move_focused(false),
            ActionView::MoveRight => self.move_focused(true),
            ActionView::Close => self.close_focused(),
            ActionView::Workspace(n) => if sat_sub(n as int, 1) < self.workspaces.len() {
                TwmView { active_ws: sat_sub(n as int, 1), dirty: true, ..self }
            } else {
                self
            },
            ActionView::MoveToWorkspace(n) => self.send_focused(sat_sub(n as int, 1)),
            ActionView::NextLayout => (TwmView { dirty: true, ..self }).with_active(
                WorkspaceView { layout: self.active().layout.next_spec(), ..self.active() },
            ),
            ActionView::GrowMain => (TwmView { dirty: true, ..self }).with_active(
                WorkspaceView {
                    main_ratio_pct: Self::grown(self.active().main_ratio_pct),
                    ..self.active()
                },
            ),
            ActionView::ShrinkMain => (TwmView { dirty: true, ..self }).with_active(
                WorkspaceView {
                    main_ratio_pct: Self::shrunk(self.active().main_ratio_pct),
                    ..self.active()
                },
            ),
            ActionView::NextWorkspace => TwmView {
                active_ws: (self.active_ws + 1) % (self.workspaces.len() as int),
                dirty: true,
                ..self
            },
            ActionView::PrevWorkspace => TwmView {
                active_ws: (self.active_ws + self.workspaces.len() - 1) % (
                self.workspaces.len() as int),
                dirty: true,
                ..self
            },
            ActionView::ToggleBar => TwmView {
                bar_visible: !self.bar_visible,
                dirty: true,
                ..self
            },
            ActionView::Fullscreen => self.toggle_fullscreen(),
            ActionView::OpenShell(title) => self.open_pane(ContentView::Shell { title }),
        }
    }

    // ── queries ──────────────────────────────────────────────────────────────

    /// Some pane is still on its way.
    pub open spec fn animating(self, now_ms: u64) -> bool {
        exists|i: int| 0 <= i < self.panes.len() && !(#[trigger] self.panes[i]).anim.done_at(now_ms)
    }

    /// The pane `id`, if it exists and shows an embedded client.
    pub open spec fn embedded_pane(self, id: PaneId) -> Option<int> {
        match pane_pos(self.panes, id) {
            Some(i) => if self.panes[i].content is Embedded {
                Some(i)
            } else {
                None
            },
            None => None,
        }
    }

    /// Where the first pane of the client `app_id` among the first `k` panes
    /// of the active workspace is at time `now_ms`.
    pub open spec fn embedded_rect(self, app_id: Seq<char>, now_ms: u64, k: nat) -> Option<
        CellRect,
    >
        decreases k,
    {
        if k == 0 {
            None
        } else if self.embedded_rect(app_id, now_ms, (k - 1) as nat) is Some {
            self.embedded_rect(app_id, now_ms, (k - 1) as nat)
        } else {
            match self.embedded_pane(self.active().panes[k - 1]) {
                Some(i) => if self.panes[i].content->app_id == app_id {
                    Some(self.panes[i].anim.current_at(now_ms))
                } else {
                    None
                },
                None => None,
            }
        }
    }

    /// The embedded clients among the first `k` panes of the active
    /// workspace, each with where its pane is at time `now_ms`.
    pub open spec fn embedded_rects(self, now_ms: u64, k: nat) -> Seq<(Seq<char>, CellRect)>
        decreases k,
    {
        if k == 0 {
            Seq::empty()
        } else {
            let before = self.embedded_rects(now_ms, (k - 1) as nat);
            match self.embedded_pane(self.active().panes[k - 1]) {
                Some(i) => before.push(
                    (self.panes[i].content->app_id, self.panes[i].anim.current_at(now_ms)),
                ),
                None => before,
            }
        }
    }

    /// The state of a new window manager before its first reflow: one shell
    /// pane in the first workspace, so that the screen is never empty.
    pub open spec fn initial(cols: u16, rows: u16) -> TwmView {
        TwmView {
            panes: seq![
                PaneView {
                    id: 1,
                    content: ContentView::Shell { title: "trixterm"@ },
                    anim: AnimRect {
                        src: CellRect { x: 0, y: 0, width: 0, height: 0 },
                        dst: CellRect { x: 0, y: 0, width: 0, height: 0 },
                        start_ms: 0,
                        dur_ms: 0,
                        ease: Easing::EaseOutCubic,
                    },
                    fullscreen: false,
                },
            ],
            workspaces: Seq::new(
                WORKSPACES as nat,
                |k: int|
                    if k == 0 {
                        WorkspaceView { panes: seq![1u32], focused: Some(1u32), ..empty_workspace(1) }
                    } else {
                        empty_workspace(1)
                    },
            ),
            active_ws: 0,
            cols,
            rows,
            anim_duration_ms: 120,
            anim_ease: Easing::EaseOutCubic,
            anim_enabled: true,
            bar_visible: true,
            bar_height: 1,
            bar_at_bottom: true,
            next_id: 2,
            dirty: true,
        }
    }

    /// An action can be carried out: one that opens a pane needs an unused
    /// pane id.
    pub open spec fn can_step(self, action: ActionView) -> bool {
        action is OpenShell ==> self.next_id < u32::MAX
    }
}

} // verus!

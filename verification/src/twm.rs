//! The tiling window manager: panes, workspaces, focus and actions.

use crate::cells::{blank_cell, CellBuffer, Rgb};
use crate::geometry::{
    bsp_split, cell_rect, col_split, layout_room, row_split, AnimRect, CellRect, Easing,
};
use crate::text::str_eq;
use crate::twm_laws::{
    lemma_assign_embedded_wf, lemma_close_pane_wf, lemma_initial_wf, lemma_open_pane_wf,
    lemma_reflow_wf, lemma_step_wf,
};
use crate::twm_model::{
    empty_workspace, id_pos, label_pos, lemma_id_pos, lemma_label_pos, lemma_pane_pos, pane_pos, without,
    ActionView, ContentView, Layout, PaneId, PaneView, TwmView, WorkspaceView, MAX_RATIO,
    MIN_RATIO, RATIO_STEP, WORKSPACES,
};
use vstd::prelude::*;

verus! {

// ── panes ────────────────────────────────────────────────────────────────────

/// What a pane shows.
#[derive(Clone, Debug)]
pub enum PaneContent {
    /// A placeholder for a shell, with its title.
    Shell { title: String },
    /// An embedded client, by its application id.
    Embedded { app_id: String },
    /// Nothing yet.
    Empty,
}

impl View for PaneContent {
    type V = ContentView;

    open spec fn view(&self) -> ContentView {
        match *self {
            PaneContent::Shell { title } => ContentView::Shell { title: title@ },
            PaneContent::Embedded { app_id } => ContentView::Embedded { app_id: app_id@ },
            PaneContent::Empty => ContentView::Empty,
        }
    }
}

impl PaneContent {
    /// Name under which the pane is found.
    pub fn label(&self) -> (s: &str)
        ensures
            s@ == self@.label(),
    {
        match self {
            PaneContent::Shell { title } => title.as_str(),
            PaneContent::Embedded { app_id } => app_id.as_str(),
            PaneContent::Empty => "empty",
        }
    }

    pub fn is_embedded(&self) -> (b: bool)
        ensures
            b == (self@ is Embedded),
    {
        match self {
            PaneContent::Embedded { .. } => true,
            _ => false,
        }
    }
}

pub struct Pane {
    pub id: PaneId,
    pub content: PaneContent,
    pub anim: AnimRect,
    pub fullscreen: bool,
}

impl View for Pane {
    type V = PaneView;

    open spec fn view(&self) -> PaneView {
        PaneView { id: self.id, content: self.content@, anim: self.anim, fullscreen: self.fullscreen }
    }
}

impl Pane {
    /// A pane at rest at the grid's origin.
    pub fn new(id: PaneId, content: PaneContent) -> (p: Pane)
        ensures
            p@ == (PaneView {
                id,
                content: content@,
                anim: AnimRect {
                    src: CellRect { x: 0, y: 0, width: 0, height: 0 },
                    dst: CellRect { x: 0, y: 0, width: 0, height: 0 },
                    start_ms: 0,
                    dur_ms: 0,
                    ease: Easing::EaseOutCubic,
                },
                fullscreen: false,
            }),
    {
        Pane {
            id,
            content,
            anim: AnimRect::still(CellRect { x: 0, y: 0, width: 0, height: 0 }),
            fullscreen: false,
        }
    }
}

pub open spec fn pane_views(panes: Seq<Pane>) -> Seq<PaneView> {
    Seq::new(panes.len(), |i: int| panes[i]@)
}

// ── workspaces ───────────────────────────────────────────────────────────────

pub struct Workspace {
    pub panes: Vec<PaneId>,
    pub focused: Option<PaneId>,
    pub layout: Layout,
    /// Share of the main pane in the Columns and Rows layouts, in percent.
    pub main_ratio_pct: u8,
    pub gap: u16,
}

impl View for Workspace {
    type V = WorkspaceView;

    open spec fn view(&self) -> WorkspaceView {
        WorkspaceView {
            panes: self.panes@,
            focused: self.focused,
            layout: self.layout,
            main_ratio_pct: self.main_ratio_pct,
            gap: self.gap,
        }
    }
}

pub open spec fn workspace_views(ws: Seq<Workspace>) -> Seq<WorkspaceView> {
    Seq::new(ws.len(), |i: int| ws[i]@)
}

impl Workspace {
    pub fn new(gap: u16) -> (w: Workspace)
        ensures
            w@ == empty_workspace(gap),
    {
        Workspace { panes: Vec::new(), focused: None, layout: Layout::Bsp, main_ratio_pct: 50, gap }
    }

    /// Position of the focused pane in the list.
    pub fn focus_idx(&self) -> (r: Option<usize>)
        ensures
            match self.focused {
                Some(fid) => match r {
                    Some(i) => id_pos(self.panes@, fid) == Some(i as int),
                    None => id_pos(self.panes@, fid) is None,
                },
                None => r is None,
            },
    {
        match self.focused {
            None => None,
            Some(fid) => {
                proof {
                    lemma_id_pos(self.panes@, fid);
                }
                let mut i: usize = 0;
                while i < self.panes.len()
                    invariant
                        i <= self.panes.len(),
                        self.focused == Some(fid),
                        forall|j: int| 0 <= j < i ==> self.panes@[j] != fid,
                    decreases self.panes.len() - i,
                {
                    if self.panes[i] == fid {
                        proof {
                            lemma_id_pos(self.panes@, fid);
                        }
                        return Some(i);
                    }
                    i = i + 1;
                }
                proof {
                    lemma_id_pos(self.panes@, fid);
                }
                None
            },
        }
    }
}

/// Remove every occurrence of `id` from `v`, keeping the order of the rest.
fn remove_id(v: &mut Vec<PaneId>, id: PaneId)
    ensures
        final(v)@ == without(old(v)@, id),
{
    let mut kept: Vec<PaneId> = Vec::new();
    let mut i: usize = 0;
    while i < v.len()
        invariant
            i <= v.len(),
            v@ == old(v)@,
            kept@ == without(v@.subrange(0, i as int), id),
        decreases v.len() - i,
    {
        proof {
            assert(v@.subrange(0, i + 1).drop_last() =~= v@.subrange(0, i as int));
        }
        if v[i] != id {
            kept.push(v[i]);
        }
        i = i + 1;
    }
    proof {
        assert(v@.subrange(0, v.len() as int) =~= v@);
    }
    *v = kept;
}

// ── actions ──────────────────────────────────────────────────────────────────

/// What a key binding asks of the window manager.
#[derive(Debug, Clone, PartialEq, Eq)]
pub enum Action {
    FocusLeft,
    FocusRight,
    FocusUp,
    FocusDown,
    MoveLeft,
    MoveRight,
    Close,
    Workspace(u8),
    MoveToWorkspace(u8),
    NextLayout,
    GrowMain,
    ShrinkMain,
    NextWorkspace,
    PrevWorkspace,
    ToggleBar,
    Fullscreen,
    /// Open a placeholder pane with this title.
    OpenShell(String),
}

impl View for Action {
    type V = ActionView;

    open spec fn view(&self) -> ActionView {
        match *self {
            Action::FocusLeft => ActionView::FocusLeft,
            Action::FocusRight => ActionView::FocusRight,
            Action::FocusUp => ActionView::FocusUp,
            Action::FocusDown => ActionView::FocusDown,
            Action::MoveLeft => ActionView::MoveLeft,
            Action::MoveRight => ActionView::MoveRight,
            Action::Close => ActionView::Close,
            Action::Workspace(n) => ActionView::Workspace(n),
            Action::MoveToWorkspace(n) => ActionView::MoveToWorkspace(n),
            Action::NextLayout => ActionView::NextLayout,
            Action::GrowMain => ActionView::GrowMain,
            Action::ShrinkMain => ActionView::ShrinkMain,
            Action::NextWorkspace => ActionView::NextWorkspace,
            Action::PrevWorkspace => ActionView::PrevWorkspace,
            Action::ToggleBar => ActionView::ToggleBar,
            Action::Fullscreen => ActionView::Fullscreen,
            Action::OpenShell(title) => ActionView::OpenShell(title@),
        }
    }
}

// ── state ────────────────────────────────────────────────────────────────────

pub struct TwmState {
    pub panes: Vec<Pane>,
    pub workspaces: Vec<Workspace>,
    pub active_ws: usize,
    pub cols: u16,
    pub rows: u16,
    pub anim_duration_ms: u32,
    pub anim_ease: Easing,
    pub anim_enabled: bool,
    pub bar_visible: bool,
    /// Height of the bar in cells.
    pub bar_height: u16,
    pub bar_at_bottom: bool,
    pub bar_clock: String,
    pub active_border: Rgb,
    pub inactive_border: Rgb,
    pub active_title: Rgb,
    pub inactive_title: Rgb,
    pub pane_bg: Rgb,
    pub bar_bg: Rgb,
    pub bar_fg: Rgb,
    /// Id that the next new pane gets.
    pub next_id: PaneId,
    pub cells: CellBuffer,
    pub dirty: bool,
}

impl View for TwmState {
    type V = TwmView;

    open spec fn view(&self) -> TwmView {
        TwmView {
            panes: pane_views(self.panes@),
            workspaces: workspace_views(self.workspaces@),
            active_ws: self.active_ws as int,
            cols: self.cols,
            rows: self.rows,
            anim_duration_ms: self.anim_duration_ms,
            anim_ease: self.anim_ease,
            anim_enabled: self.anim_enabled,
            bar_visible: self.bar_visible,
            bar_height: self.bar_height,
            bar_at_bottom: self.bar_at_bottom,
            next_id: self.next_id,
            dirty: self.dirty,
        }
    }
}

/// Position of the first pane with the id `id`.
pub fn find_pane(panes: &Vec<Pane>, id: PaneId) -> (r: Option<usize>)
    ensures
        match r {
            Some(i) => pane_pos(pane_views(panes@), id) == Some(i as int) && i < panes.len(),
            None => pane_pos(pane_views(panes@), id) is None,
        },
{
    proof {
        lemma_pane_pos(pane_views(panes@), id);
    }
    let mut i: usize = 0;
    while i < panes.len()
        invariant
            i <= panes.len(),
            forall|j: int| 0 <= j < i ==> (#[trigger] pane_views(panes@)[j]).id != id,
        decreases panes.len() - i,
    {
        if panes[i].id == id {
            proof {
                lemma_pane_pos(pane_views(panes@), id);
                assert(pane_views(panes@)[i as int].id == id);
            }
            return Some(i);
        }
        i = i + 1;
    }
    proof {
        lemma_pane_pos(pane_views(panes@), id);
    }
    None
}

/// Position of the first pane that goes by the name `label`.
pub fn find_label(panes: &Vec<Pane>, label: &str) -> (r: Option<usize>)
    ensures
        match r {
            Some(i) => label_pos(pane_views(panes@), label@) == Some(i as int) && i < panes.len(),
            None => label_pos(pane_views(panes@), label@) is None,
        },
{
    proof {
        lemma_label_pos(pane_views(panes@), label@);
    }
    let mut i: usize = 0;
    while i < panes.len()
        invariant
            i <= panes.len(),
            forall|j: int|
                0 <= j < i ==> (#[trigger] pane_views(panes@)[j]).content.label() != label@,
        decreases panes.len() - i,
    {
        if str_eq(panes[i].content.label(), label) {
            proof {
                lemma_label_pos(pane_views(panes@), label@);
                assert(pane_views(panes@)[i as int].content.label() == label@);
            }
            return Some(i);
        }
        i = i + 1;
    }
    proof {
        lemma_label_pos(pane_views(panes@), label@);
    }
    None
}

impl TwmState {
    /// The state is consistent and its cell grid has the grid's size.
    pub open spec fn wf(&self) -> bool {
        &&& self@.wf()
        &&& self.cells.wf()
        &&& self.cells.cols == self.cols
        &&& self.cells.rows == self.rows
    }

    /// The colours and the clock text are as in `other`.
    pub open spec fn same_look(&self, other: &TwmState) -> bool {
        &&& self.bar_clock == other.bar_clock
        &&& self.active_border == other.active_border
        &&& self.inactive_border == other.inactive_border
        &&& self.active_title == other.active_title
        &&& self.inactive_title == other.inactive_title
        &&& self.pane_bg == other.pane_bg
        &&& self.bar_bg == other.bar_bg
        &&& self.bar_fg == other.bar_fg
    }

    /// The colours, the clock text and the cell grid are as in `other`.
    pub open spec fn same_settings(&self, other: &TwmState) -> bool {
        self.same_look(other) && self.cells == other.cells
    }

    fn push_pane(&mut self, content: PaneContent)
        requires
            old(self).wf(),
            old(self).next_id < u32::MAX,
        ensures
            final(self)@ == old(self)@.open_pane(content@),
            final(self).wf(),
            final(self).same_settings(old(self)),
    {
        let id: PaneId = self.next_id;
        let a: usize = self.active_ws;
        proof {
            lemma_open_pane_wf(self@, content@);
        }
        let p = Pane::new(id, content);
        self.panes.push(p);
        self.workspaces[a].panes.push(id);
        self.workspaces[a].focused = Some(id);
        self.next_id = id + 1;
        self.dirty = true;
        proof {
            let m = old(self)@.open_pane(content@);
            assert(self@.panes =~= m.panes);
            assert(self@.workspaces =~= m.workspaces);
        }
    }

    /// Open a shell placeholder in the active workspace and focus it.
    pub fn open_shell_pane(&mut self, title: &str)
        requires
            old(self).wf(),
            old(self).next_id < u32::MAX,
        ensures
            final(self)@ == old(self)@.open_pane(ContentView::Shell { title: title@ }),
            final(self).wf(),
            final(self).same_settings(old(self)),
    {
        self.push_pane(PaneContent::Shell { title: title.to_owned() });
    }

    /// Give the embedded client `app_id` a pane: the focused one if that
    /// holds a shell or nothing, else a new one. Returns the pane's id.
    pub fn assign_embedded(&mut self, app_id: &str) -> (id: PaneId)
        requires
            old(self).wf(),
            old(self).next_id < u32::MAX,
        ensures
            final(self)@ == old(self)@.assign_embedded(app_id@),
            id == old(self)@.assigned_id(),
            final(self).wf(),
            final(self).same_settings(old(self)),
    {
        proof {
            lemma_assign_embedded_wf(self@, app_id@);
        }
        let a: usize = self.active_ws;
        let focused = self.workspaces[a].focused;
        match focused {
            Some(fid) => {
                match find_pane(&self.panes, fid) {
                    Some(i) => {
                        if !self.panes[i].content.is_embedded() {
                            self.panes[i].content = PaneContent::Embedded {
                                app_id: app_id.to_owned(),
                            };
                            self.dirty = true;
                            proof {
                                let m = old(self)@.assign_embedded(app_id@);
                                assert(self@.panes =~= m.panes);
                                assert(self@.workspaces =~= m.workspaces);
                                lemma_pane_pos(old(self)@.panes, fid);
                            }
                            return fid;
                        }
                    },
                    None => {},
                }
            },
            None => {},
        }
        let id: PaneId = self.next_id;
        self.push_pane(PaneContent::Embedded { app_id: app_id.to_owned() });
        id
    }

    /// Remove the pane `id` from the pane set and from every workspace. A
    /// workspace that had its focus on it focuses its last pane.
    pub fn close_pane(&mut self, id: PaneId)
        requires
            old(self).wf(),
        ensures
            final(self)@ == old(self)@.close_pane(id),
            final(self).wf(),
            final(self).same_settings(old(self)),
    {
        proof {
            lemma_close_pane_wf(self@, id);
        }
        match find_pane(&self.panes, id) {
            Some(i) => {
                self.panes.remove(i);
            },
            None => {},
        }
        let mut k: usize = 0;
        while k < self.workspaces.len()
            invariant
                k <= self.workspaces.len(),
                self.workspaces.len() == old(self).workspaces.len(),
                forall|j: int|
                    0 <= j < k ==> (#[trigger] self.workspaces[j])@ == TwmView::drop_from(
                        old(self).workspaces[j]@,
                        id,
                    ),
                forall|j: int|
                    k <= j < self.workspaces.len() ==> (#[trigger] self.workspaces[j])
                        == old(self).workspaces[j],
                self.panes@ == (match pane_pos(pane_views(old(self).panes@), id) {
                    Some(i) => old(self).panes@.remove(i),
                    None => old(self).panes@,
                }),
                self.active_ws == old(self).active_ws,
                self.cols == old(self).cols,
                self.rows == old(self).rows,
                self.anim_duration_ms == old(self).anim_duration_ms,
                self.anim_ease == old(self).anim_ease,
                self.anim_enabled == old(self).anim_enabled,
                self.bar_visible == old(self).bar_visible,
                self.bar_height == old(self).bar_height,
                self.bar_at_bottom == old(self).bar_at_bottom,
                self.next_id == old(self).next_id,
                self.same_settings(old(self)),
            decreases self.workspaces.len() - k,
        {
            remove_id(&mut self.workspaces[k].panes, id);
            if self.workspaces[k].focused == Some(id) {
                let n: usize = self.workspaces[k].panes.len();
                self.workspaces[k].focused = if n > 0 {
                    Some(self.workspaces[k].panes[n - 1])
                } else {
                    None
                };
            }
            k = k + 1;
        }
        self.dirty = true;
        proof {
            let m = old(self)@.close_pane(id);
            assert(self@.panes =~= m.panes);
            assert(self@.workspaces =~= m.workspaces);
        }
    }

    /// Close the first pane that goes by the name `app_id`, if there is one.
    pub fn close_pane_by_app_id(&mut self, app_id: &str)
        requires
            old(self).wf(),
        ensures
            final(self)@ == old(self)@.close_by_label(app_id@),
            final(self).wf(),
            final(self).same_settings(old(self)),
    {
        match find_label(&self.panes, app_id) {
            Some(i) => {
                let id: PaneId = self.panes[i].id;
                self.close_pane(id);
            },
            None => {},
        }
    }

    /// Close the focused pane of the active workspace, if there is one.
    pub fn close_focused(&mut self)
        requires
            old(self).wf(),
        ensures
            final(self)@ == old(self)@.close_focused(),
            final(self).wf(),
            final(self).same_settings(old(self)),
    {
        match self.focused_id() {
            Some(id) => self.close_pane(id),
            None => {},
        }
    }

    // ── accessors ────────────────────────────────────────────────────────────

    pub fn focused_id(&self) -> (r: Option<PaneId>)
        requires
            self.wf(),
        ensures
            r == self@.active().focused,
    {
        self.workspaces[self.active_ws].focused
    }

    /// Content of the focused pane of the active workspace.
    pub fn focused_content(&self) -> (r: Option<&PaneContent>)
        requires
            self.wf(),
        ensures
            match self@.active().focused {
                Some(id) => match pane_pos(self@.panes, id) {
                    Some(i) => r matches Some(c) && c@ == self@.panes[i].content,
                    None => r is None,
                },
                None => r is None,
            },
    {
        match self.focused_id() {
            Some(id) => match find_pane(&self.panes, id) {
                Some(i) => Some(&self.panes[i].content),
                None => None,
            },
            None => None,
        }
    }
}

impl TwmState {
    /// Every field but the pane set and the dirty flag is as in `other`.
    pub open spec fn same_frame(&self, other: &TwmState) -> bool {
        &&& self.same_settings(other)
        &&& self.workspaces == other.workspaces
        &&& self.active_ws == other.active_ws
        &&& self.cols == other.cols
        &&& self.rows == other.rows
        &&& self.anim_duration_ms == other.anim_duration_ms
        &&& self.anim_ease == other.anim_ease
        &&& self.anim_enabled == other.anim_enabled
        &&& self.bar_visible == other.bar_visible
        &&& self.bar_height == other.bar_height
        &&& self.bar_at_bottom == other.bar_at_bottom
        &&& self.next_id == other.next_id
    }

    /// What a new window manager looks like: the default theme, no clock
    /// text yet, and a grid of blank cells.
    pub open spec fn new_look(&self) -> bool {
        &&& self.active_border == (180u8, 190u8, 254u8)
        &&& self.inactive_border == (69u8, 71u8, 90u8)
        &&& self.active_title == (180u8, 190u8, 254u8)
        &&& self.inactive_title == (88u8, 91u8, 112u8)
        &&& self.pane_bg == (17u8, 17u8, 27u8)
        &&& self.bar_bg == (24u8, 24u8, 37u8)
        &&& self.bar_fg == (166u8, 173u8, 200u8)
        &&& self.bar_clock@.len() == 0
        &&& forall|i: int|
            0 <= i < self.cells.cells.len() ==> #[trigger] self.cells.cells[i] == blank_cell()
    }

    /// A window manager for a grid of `cols` by `rows` cells, with one shell
    /// pane in its first workspace, laid out at time `now_ms`.
    pub fn new(cols: u16, rows: u16, now_ms: u64) -> (s: TwmState)
        requires
            TwmView::initial(cols, rows).fits(),
        ensures
            s@ == TwmView::initial(cols, rows).reflow(now_ms),
            s.wf(),
            s.new_look(),
    {
        let mut workspaces: Vec<Workspace> = Vec::new();
        let mut k: usize = 0;
        while k < WORKSPACES
            invariant
                k <= WORKSPACES,
                workspaces.len() == k,
                forall|j: int| 0 <= j < k ==> (#[trigger] workspaces[j])@ == empty_workspace(1),
            decreases WORKSPACES - k,
        {
            workspaces.push(Workspace::new(1));
            k = k + 1;
        }
        let mut title = String::new();
        title.append("trixterm");
        assert(title@ =~= "trixterm"@);
        let root = Pane::new(1, PaneContent::Shell { title });
        let mut panes: Vec<Pane> = Vec::new();
        panes.push(root);
        workspaces[0].panes.push(1);
        workspaces[0].focused = Some(1);
        let mut s = TwmState {
            panes,
            workspaces,
            active_ws: 0,
            cols,
            rows,
            anim_duration_ms: 120,
            anim_ease: Easing::EaseOutCubic,
            anim_enabled: true,
            bar_visible: true,
            bar_height: 1,
            bar_at_bottom: true,
            bar_clock: String::new(),
            active_border: (180, 190, 254),
            inactive_border: (69, 71, 90),
            active_title: (180, 190, 254),
            inactive_title: (88, 91, 112),
            pane_bg: (17, 17, 27),
            bar_bg: (24, 24, 37),
            bar_fg: (166, 173, 200),
            next_id: 2,
            cells: CellBuffer::new(cols, rows),
            dirty: true,
        };
        proof {
            let m = TwmView::initial(cols, rows);
            lemma_initial_wf(cols, rows);
            assert(s@.panes =~= m.panes);
            assert(s@.workspaces =~= m.workspaces);
            assert(s@ == m);
        }
        s.reflow(now_ms);
        s
    }

    /// Whether a grid of `cols` by `rows` cells leaves the layout of a new
    /// window manager within 16 bits.
    pub fn grid_fits(cols: u16, rows: u16) -> (b: bool)
        ensures
            b == TwmView::initial(cols, rows).fits(),
    {
        assert(TwmView::initial(cols, rows).active().panes.len() == 1);
        assert(TwmView::initial(cols, rows).active().gap == 1);
        cols <= 0xFFFF - 5 && rows <= 0xFFFF - 6
    }

    /// A window manager for the grid, if its layout fits: see `new`.
    pub fn try_new(cols: u16, rows: u16, now_ms: u64) -> (r: Option<TwmState>)
        ensures
            r is Some <==> TwmView::initial(cols, rows).fits(),
            r matches Some(s) ==> s@ == TwmView::initial(cols, rows).reflow(now_ms) && s.wf()
                && s.new_look(),
    {
        if TwmState::grid_fits(cols, rows) {
            Some(TwmState::new(cols, rows, now_ms))
        } else {
            None
        }
    }

    /// Whether the layout of the active workspace stays within 16 bits on
    /// a grid of `cols` by `rows` cells.
    pub fn has_room(&self, cols: u16, rows: u16) -> (b: bool)
        requires
            self.wf(),
        ensures
            b == (TwmView { cols, rows, ..self@ }).fits(),
    {
        let n: usize = self.workspaces[self.active_ws].panes.len();
        let gap: u64 = self.workspaces[self.active_ws].gap as u64;
        assert(self@.active() == self.workspaces@[self.active_ws as int]@);
        if n > 0xFFFF {
            return false;
        }
        assert(n * gap <= 0xFFFF * 0xFFFF) by (nonlinear_arith)
            requires
                n <= 0xFFFF,
                gap <= 0xFFFF,
        ;
        let gaps: u64 = n as u64 * gap;
        cols as u64 + 4 + gaps <= 0xFFFF && rows as u64 + self.bar_height as u64 + 4 + gaps
            <= 0xFFFF
    }

    /// Take a new grid size and lay the panes out again.
    pub fn resize(&mut self, cols: u16, rows: u16, now_ms: u64)
        requires
            old(self).wf(),
            (TwmView { cols, rows, ..old(self)@ }).fits(),
        ensures
            final(self)@ == old(self)@.resize(cols, rows, now_ms),
            final(self).wf(),
            final(self).same_look(old(self)),
    {
        self.cols = cols;
        self.rows = rows;
        self.cells.resize(cols, rows);
        self.dirty = true;
        assert(self@ == (TwmView { cols, rows, dirty: true, ..old(self)@ }));
        proof {
            crate::twm_laws::lemma_resize_wf(old(self)@, cols, rows, now_ms);
        }
        assert(self@.wf()) by {
            assert(self@.panes == old(self)@.panes);
            assert(self@.workspaces == old(self)@.workspaces);
        }
        self.reflow(now_ms);
    }

    /// Some pane is still on its way at time `now_ms`.
    pub fn animating(&self, now_ms: u64) -> (b: bool)
        ensures
            b == self@.animating(now_ms),
    {
        let mut i: usize = 0;
        while i < self.panes.len()
            invariant
                i <= self.panes.len(),
                forall|j: int| 0 <= j < i ==> (#[trigger] self@.panes[j]).anim.done_at(now_ms),
            decreases self.panes.len() - i,
        {
            if !self.panes[i].anim.is_done(now_ms) {
                assert(!self@.panes[i as int].anim.done_at(now_ms));
                return true;
            }
            i = i + 1;
        }
        false
    }

    /// Where the pane of the embedded client `app_id` on the active
    /// workspace is at time `now_ms`.
    pub fn embedded_cell_rect(&self, app_id: &str, now_ms: u64) -> (r: Option<CellRect>)
        requires
            self.wf(),
        ensures
            r == self@.embedded_rect(app_id@, now_ms, self@.active().panes.len()),
    {
        let a: usize = self.active_ws;
        let n: usize = self.workspaces[a].panes.len();
        let mut k: usize = 0;
        while k < n
            invariant
                self.wf(),
                a == self.active_ws,
                n == self.workspaces[a as int].panes.len(),
                k <= n,
                self@.embedded_rect(app_id@, now_ms, k as nat) is None,
            decreases n - k,
        {
            let id: PaneId = self.workspaces[a].panes[k];
            match find_pane(&self.panes, id) {
                Some(i) => {
                    match &self.panes[i].content {
                        PaneContent::Embedded { app_id: aid } => {
                            if str_eq(aid.as_str(), app_id) {
                                let r = self.panes[i].anim.current(now_ms);
                                proof {
                                    self.lemma_embedded_rect_stable(app_id@, now_ms, (k + 1) as nat, n as nat);
                                }
                                return Some(r);
                            }
                        },
                        _ => {},
                    }
                },
                None => {},
            }
            k = k + 1;
        }
        None
    }

    proof fn lemma_embedded_rect_stable(&self, app_id: Seq<char>, now_ms: u64, k: nat, n: nat)
        requires
            k <= n,
            self@.embedded_rect(app_id, now_ms, k) is Some,
        ensures
            self@.embedded_rect(app_id, now_ms, n) == self@.embedded_rect(app_id, now_ms, k),
        decreases n - k,
    {
        if k < n {
            self.lemma_embedded_rect_stable(app_id, now_ms, k, (n - 1) as nat);
        }
    }

    /// The embedded clients of the active workspace, in pane order, each
    /// with where its pane is at time `now_ms`.
    pub fn all_embedded_cell_rects(&self, now_ms: u64) -> (out: Vec<(String, CellRect)>)
        requires
            self.wf(),
        ensures
            out.len() == self@.embedded_rects(now_ms, self@.active().panes.len()).len(),
            forall|j: int|
                0 <= j < out.len() ==> (#[trigger] out[j]).0@ == self@.embedded_rects(
                    now_ms,
                    self@.active().panes.len(),
                )[j].0 && out[j].1 == self@.embedded_rects(now_ms, self@.active().panes.len())[j].1,
    {
        let a: usize = self.active_ws;
        let n: usize = self.workspaces[a].panes.len();
        let mut out: Vec<(String, CellRect)> = Vec::new();
        let mut k: usize = 0;
        while k < n
            invariant
                self.wf(),
                a == self.active_ws,
                n == self.workspaces[a as int].panes.len(),
                k <= n,
                out.len() == self@.embedded_rects(now_ms, k as nat).len(),
                forall|j: int|
                    0 <= j < out.len() ==> (#[trigger] out[j]).0@ == self@.embedded_rects(
                        now_ms,
                        k as nat,
                    )[j].0 && out[j].1 == self@.embedded_rects(now_ms, k as nat)[j].1,
            decreases n - k,
        {
            let id: PaneId = self.workspaces[a].panes[k];
            match find_pane(&self.panes, id) {
                Some(i) => {
                    match &self.panes[i].content {
                        PaneContent::Embedded { app_id } => {
                            out.push((app_id.clone(), self.panes[i].anim.current(now_ms)));
                        },
                        _ => {},
                    }
                },
                None => {},
            }
            k = k + 1;
        }
        out
    }

    // ── geometry ─────────────────────────────────────────────────────────────

    fn anim_dur(&self) -> (d: u32)
        ensures
            d == self@.anim_dur(),
    {
        if self.anim_enabled {
            self.anim_duration_ms
        } else {
            0
        }
    }

    /// The part of the grid that panes share.
    pub fn content_rect(&self) -> (r: CellRect)
        ensures
            r == self@.content_rect(),
            r.x == 0,
            r.y <= self.bar_height,
            r.width <= self.cols,
            r.height <= self.rows,
    {
        if !self.bar_visible {
            return cell_rect(0, 0, self.cols, self.rows);
        }
        let h: u16 = if self.rows >= self.bar_height { self.rows - self.bar_height } else { 0 };
        if self.bar_at_bottom {
            cell_rect(0, 0, self.cols, h)
        } else {
            cell_rect(0, self.bar_height, self.cols, h)
        }
    }

    /// The part of the grid that the bar takes.
    pub fn bar_rect(&self) -> (r: CellRect)
        ensures
            r == self@.bar_rect(),
    {
        if self.bar_at_bottom {
            let y: u16 = if self.rows >= self.bar_height { self.rows - self.bar_height } else { 0 };
            cell_rect(0, y, self.cols, self.bar_height)
        } else {
            cell_rect(0, 0, self.cols, self.bar_height)
        }
    }

    fn targets(&self) -> (rects: Vec<CellRect>)
        requires
            self.wf(),
            self@.fits(),
            self@.active().panes.len() > 0,
        ensures
            rects@ == self@.targets(),
    {
        let a: usize = self.active_ws;
        let n: usize = self.workspaces[a].panes.len();
        let area = self.content_rect();
        let gap: u16 = self.workspaces[a].gap;
        let pct: u8 = self.workspaces[a].main_ratio_pct;
        proof {
            assert(crate::twm_model::workspace_ok(self@.panes, self@.workspaces[a as int]));
            assert(layout_room(area, n as int, gap));
        }
        match self.workspaces[a].layout {
            Layout::Bsp => bsp_split(area, n, gap),
            Layout::Columns => col_split(area, n, pct, gap),
            Layout::Rows => row_split(area, n, pct, gap),
            Layout::Monocle => {
                let mut rects: Vec<CellRect> = Vec::new();
                let mut i: usize = 0;
                while i < n
                    invariant
                        i <= n,
                        rects.len() == i,
                        forall|j: int| 0 <= j < i ==> #[trigger] rects[j] == area,
                    decreases n - i,
                {
                    rects.push(area);
                    i = i + 1;
                }
                assert(rects@ =~= Seq::new(n as nat, |i: int| area));
                rects
            },
        }
    }

    /// Send every pane of the active workspace to its place in the layout.
    pub fn reflow(&mut self, now_ms: u64)
        requires
            old(self).wf(),
            old(self)@.fits(),
        ensures
            final(self)@ == old(self)@.reflow(now_ms),
            final(self).wf(),
            final(self).same_frame(old(self)),
    {
        proof {
            lemma_reflow_wf(self@, now_ms);
        }
        let a: usize = self.active_ws;
        let n: usize = self.workspaces[a].panes.len();
        if n == 0 {
            self.dirty = false;
            return ;
        }
        let rects = self.targets();
        let dur: u32 = self.anim_dur();
        let ease = self.anim_ease;
        let ghost start = self@;
        let mut k: usize = 0;
        while k < n
            invariant
                k <= n,
                a == self.active_ws,
                n == self.workspaces[a as int].panes.len(),
                start == old(self)@,
                start.workspaces == workspace_views(self.workspaces@),
                start.active_ws == a,
                rects@ == start.targets(),
                dur == start.anim_dur(),
                ease == start.anim_ease,
                a < self.workspaces.len(),
                self.same_frame(old(self)),
                self.dirty == old(self).dirty,
                pane_views(self.panes@) == start.retargeted(rects@, now_ms, k as nat),
            decreases n - k,
        {
            let id: PaneId = self.workspaces[a].panes[k];
            assert(start.active().panes[k as int] == id);
            match find_pane(&self.panes, id) {
                Some(i) => {
                    let cur = self.panes[i].anim.current(now_ms);
                    let ghost before = pane_views(self.panes@);
                    if k < rects.len() {
                        let dst = rects[k];
                        if cur != dst {
                            self.panes[i].anim = AnimRect {
                                src: cur,
                                dst,
                                start_ms: now_ms,
                                dur_ms: dur,
                                ease,
                            };
                        }
                        proof {
                            assert(pane_views(self.panes@) =~= before.update(
                                i as int,
                                start.retarget(before[i as int], dst, now_ms),
                            ));
                        }
                    } else {
                        proof {
                            crate::geometry::lemma_layout_len(
                                start.content_rect(),
                                n as nat,
                                start.active().gap,
                                start.active().main_ratio_pct,
                            );
                        }
                    }
                },
                None => {},
            }
            k = k + 1;
        }
        self.dirty = false;
        proof {
            assert(self@.workspaces =~= start.workspaces);
        }
    }

    // ── focus and order ──────────────────────────────────────────────────────

    /// Move the focus to the nearest pane in the direction `(dx, dy)`.
    fn focus_dir(&mut self, dx: i32, dy: i32, now_ms: u64)
        requires
            old(self).wf(),
        ensures
            final(self)@ == old(self)@.focus_dir(dx as int, dy as int, now_ms),
            final(self).same_settings(old(self)),
    {
        let a: usize = self.active_ws;
        let fid: PaneId = match self.workspaces[a].focused {
            Some(id) => id,
            None => {
                return ;
            },
        };
        let cur = match find_pane(&self.panes, fid) {
            Some(i) => self.panes[i].anim.current(now_ms),
            None => {
                return ;
            },
        };
        let cx: i32 = cur.x as i32 + cur.width as i32 / 2;
        let cy: i32 = cur.y as i32 + cur.height as i32 / 2;
        let n: usize = self.workspaces[a].panes.len();
        let mut best: Option<(PaneId, i32)> = None;
        let mut k: usize = 0;
        while k < n
            invariant
                self.wf(),
                self == old(self),
                a == self.active_ws,
                n == self.workspaces[a as int].panes.len(),
                k <= n,
                0 <= cx <= 0x1_8000,
                0 <= cy <= 0x1_8000,
                match best {
                    Some(b) => self@.nearest(
                        fid,
                        cx as int,
                        cy as int,
                        dx as int,
                        dy as int,
                        now_ms,
                        k as nat,
                    ) == Some((b.0, b.1 as int)),
                    None => self@.nearest(
                        fid,
                        cx as int,
                        cy as int,
                        dx as int,
                        dy as int,
                        now_ms,
                        k as nat,
                    ) is None,
                },
            decreases n - k,
        {
            let id: PaneId = self.workspaces[a].panes[k];
            match find_pane(&self.panes, id) {
                Some(i) => {
                    let r = self.panes[i].anim.current(now_ms);
                    let rx: i32 = r.x as i32 + r.width as i32 / 2;
                    let ry: i32 = r.y as i32 + r.height as i32 / 2;
                    let d: i32 = (if rx >= cx { rx - cx } else { cx - rx }) + (if ry >= cy {
                        ry - cy
                    } else {
                        cy - ry
                    });
                    let toward: bool = (dx > 0 && rx > cx) || (dx < 0 && rx < cx) || (dy > 0 && ry
                        > cy) || (dy < 0 && ry < cy);
                    let nearer: bool = match best {
                        Some(b) => d < b.1,
                        None => true,
                    };
                    if id != fid && toward && nearer {
                        best = Some((id, d));
                    }
                },
                None => {},
            }
            k = k + 1;
        }
        match best {
            Some(b) => {
                self.workspaces[a].focused = Some(b.0);
                self.dirty = true;
                proof {
                    let m = old(self)@.focus_dir(dx as int, dy as int, now_ms);
                    assert(self@.workspaces =~= m.workspaces);
                }
            },
            None => {},
        }
    }

    /// Swap the focused pane of the active workspace with its neighbour.
    fn move_focused(&mut self, forward: bool)
        requires
            old(self).wf(),
        ensures
            final(self)@ == old(self)@.move_focused(forward),
            final(self).same_settings(old(self)),
    {
        let a: usize = self.active_ws;
        let n: usize = self.workspaces[a].panes.len();
        if n >= 2 {
            match self.workspaces[a].focus_idx() {
                Some(cur) => {
                    proof {
                        lemma_id_pos(self.workspaces[a as int].panes@, self.workspaces[a as int].focused->0);
                    }
                    proof {
                        crate::twm_laws::lemma_ring(cur as int, n as int);
                    }
                    let tgt: usize = if forward {
                        if cur + 1 == n { 0 } else { cur + 1 }
                    } else {
                        if cur == 0 { n - 1 } else { cur - 1 }
                    };
                    let x: PaneId = self.workspaces[a].panes[cur];
                    let y: PaneId = self.workspaces[a].panes[tgt];
                    self.workspaces[a].panes.set(cur, y);
                    self.workspaces[a].panes.set(tgt, x);
                },
                None => {},
            }
        }
        self.dirty = true;
        proof {
            let m = old(self)@.move_focused(forward);
            assert(self@.workspaces[a as int].panes =~= m.workspaces[a as int].panes);
            assert(self@.workspaces =~= m.workspaces);
        }
    }

    /// Send the focused pane to workspace `idx`.
    fn send_focused(&mut self, idx: usize)
        requires
            old(self).wf(),
        ensures
            final(self)@ == old(self)@.send_focused(idx as int),
            final(self).same_settings(old(self)),
    {
        let a: usize = self.active_ws;
        if idx != a && idx < self.workspaces.len() {
            match self.workspaces[a].focused {
                Some(id) => {
                    remove_id(&mut self.workspaces[a].panes, id);
                    let n: usize = self.workspaces[a].panes.len();
                    self.workspaces[a].focused = if n > 0 {
                        Some(self.workspaces[a].panes[n - 1])
                    } else {
                        None
                    };
                    self.workspaces[idx].panes.push(id);
                    self.workspaces[idx].focused = Some(id);
                    self.dirty = true;
                    proof {
                        let m = old(self)@.send_focused(idx as int);
                        assert(self@.workspaces =~= m.workspaces);
                    }
                },
                None => {},
            }
        }
    }

    fn toggle_fullscreen(&mut self)
        requires
            old(self).wf(),
        ensures
            final(self)@ == old(self)@.toggle_fullscreen(),
            final(self).same_settings(old(self)),
    {
        let a: usize = self.active_ws;
        match self.workspaces[a].focused {
            Some(id) => {
                match find_pane(&self.panes, id) {
                    Some(i) => {
                        let f: bool = self.panes[i].fullscreen;
                        self.panes[i].fullscreen = !f;
                    },
                    None => {},
                }
            },
            None => {},
        }
        self.dirty = true;
        proof {
            let m = old(self)@.toggle_fullscreen();
            assert(self@.panes =~= m.panes);
            assert(self@.workspaces =~= m.workspaces);
        }
    }

    /// Carry out one action at time `now_ms`.
    #[verifier::rlimit(60)]
    pub fn dispatch(&mut self, action: &Action, now_ms: u64)
        requires
            old(self).wf(),
            old(self)@.can_step(action@),
        ensures
            final(self)@ == old(self)@.step(action@, now_ms),
            final(self).wf(),
            final(self).same_settings(old(self)),
    {
        proof {
            lemma_step_wf(self@, action@, now_ms);
        }
        let a: usize = self.active_ws;
        match action {
            Action::FocusLeft => self.focus_dir(-1, 0, now_ms),
            Action::FocusRight => self.focus_dir(1, 0, now_ms),
            Action::FocusUp => self.focus_dir(0, -1, now_ms),
            Action::FocusDown => self.focus_dir(0, 1, now_ms),
            Action::MoveLeft => self.move_focused(false),
            Action::MoveRight => self.move_focused(true),
            Action::Close => self.close_focused(),
            Action::Workspace(n) => {
                let idx: usize = if *n >= 1 { (*n - 1) as usize } else { 0 };
                if idx < self.workspaces.len() {
                    self.active_ws = idx;
                    self.dirty = true;
                }
            },
            Action::MoveToWorkspace(n) => {
                let idx: usize = if *n >= 1 { (*n - 1) as usize } else { 0 };
                self.send_focused(idx);
            },
            Action::NextLayout => {
                let l = self.workspaces[a].layout.next();
                self.workspaces[a].layout = l;
                self.dirty = true;
                proof {
                    assert(self@.workspaces =~= old(self)@.step(action@, now_ms).workspaces);
                }
            },
            Action::GrowMain => {
                let pct: u8 = self.workspaces[a].main_ratio_pct;
                self.workspaces[a].main_ratio_pct = if pct >= MAX_RATIO - RATIO_STEP {
                    MAX_RATIO
                } else {
                    pct + RATIO_STEP
                };
                self.dirty = true;
                proof {
                    assert(self@.workspaces =~= old(self)@.step(action@, now_ms).workspaces);
                }
            },
            Action::ShrinkMain => {
                let pct: u8 = self.workspaces[a].main_ratio_pct;
                self.workspaces[a].main_ratio_pct = if pct <= MIN_RATIO + RATIO_STEP {
                    MIN_RATIO
                } else {
                    pct - RATIO_STEP
                };
                self.dirty = true;
                proof {
                    assert(self@.workspaces =~= old(self)@.step(action@, now_ms).workspaces);
                }
            },
            Action::NextWorkspace => {
                self.active_ws = (a + 1) % self.workspaces.len();
                self.dirty = true;
            },
            Action::PrevWorkspace => {
                let n: usize = self.workspaces.len();
                self.active_ws = (a + n - 1) % n;
                self.dirty = true;
            },
            Action::ToggleBar => {
                self.bar_visible = !self.bar_visible;
                self.dirty = true;
            },
            Action::Fullscreen => self.toggle_fullscreen(),
            Action::OpenShell(title) => self.open_shell_pane(title.as_str()),
        }
    }
}

} // verus!

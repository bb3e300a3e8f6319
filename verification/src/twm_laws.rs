//! What holds of the window manager's state machine: every operation keeps
//! the state consistent, and some sequences of actions cancel out.

use crate::geometry::CellRect;
use crate::twm_model::{
    disjoint, id_pos, ids_ok, lemma_id_pos, lemma_pane_pos, lemma_without, pane_pos, swapped,
    without, workspace_ok, ActionView, ContentView, PaneId, PaneView, TwmView, WorkspaceView,
    MAX_RATIO, RATIO_STEP,
};
use vstd::prelude::*;

verus! {

/// A pane is found by its id exactly when some pane has that id.
pub proof fn lemma_has_pane(panes: Seq<PaneView>, x: PaneId)
    ensures
        pane_pos(panes, x) is Some <==> exists|i: int| 0 <= i < panes.len() && panes[i].id == x,
{
    lemma_pane_pos(panes, x);
}

pub open spec fn same_ids(p: Seq<PaneView>, q: Seq<PaneView>) -> bool {
    p.len() == q.len() && forall|i: int| 0 <= i < p.len() ==> (#[trigger] p[i]).id == q[i].id
}

proof fn lemma_same_ids(p: Seq<PaneView>, q: Seq<PaneView>, x: PaneId)
    requires
        same_ids(p, q),
    ensures
        pane_pos(p, x) == pane_pos(q, x),
    decreases p.len(),
{
    if p.len() > 0 {
        assert(same_ids(p.drop_last(), q.drop_last())) by {
            assert forall|i: int| 0 <= i < p.drop_last().len() implies (
            #[trigger] p.drop_last()[i]).id == q.drop_last()[i].id by {
                assert(p[i].id == q[i].id);
            }
        }
        lemma_same_ids(p.drop_last(), q.drop_last(), x);
        assert(p.last().id == q.last().id) by {
            assert(p[p.len() - 1].id == q[p.len() - 1].id);
        }
    }
}

proof fn lemma_same_ids_wf(s: TwmView, t: TwmView)
    requires
        s.wf(),
        same_ids(s.panes, t.panes),
        t.workspaces == s.workspaces,
        t.active_ws == s.active_ws,
        t.next_id == s.next_id,
    ensures
        t.wf(),
{
    assert(ids_ok(t.panes, t.next_id)) by {
        assert forall|i: int| 0 <= i < t.panes.len() implies (#[trigger] t.panes[i]).id
            < t.next_id by {
            assert(s.panes[i].id == t.panes[i].id);
        }
        assert forall|i: int, j: int|
            0 <= i < t.panes.len() && 0 <= j < t.panes.len() && i != j implies (
        #[trigger] t.panes[i]).id != (#[trigger] t.panes[j]).id by {
            assert(s.panes[i].id == t.panes[i].id);
            assert(s.panes[j].id == t.panes[j].id);
        }
    }
    assert forall|k: int| 0 <= k < t.workspaces.len() implies workspace_ok(
        t.panes,
        #[trigger] t.workspaces[k],
    ) by {
        let w = s.workspaces[k];
        assert(workspace_ok(s.panes, w));
        assert forall|x: PaneId| #[trigger] w.panes.contains(x) implies pane_pos(t.panes, x)
            is Some by {
            lemma_same_ids(s.panes, t.panes, x);
        }
    }
}

/// Sending panes to their targets changes no pane's id.
proof fn lemma_retargeted_ids(s: TwmView, rects: Seq<CellRect>, now_ms: u64, k: nat)
    ensures
        same_ids(s.panes, s.retargeted(rects, now_ms, k)),
    decreases k,
{
    if k > 0 {
        lemma_retargeted_ids(s, rects, now_ms, (k - 1) as nat);
        let before = s.retargeted(rects, now_ms, (k - 1) as nat);
        lemma_pane_pos(before, s.active().panes[k - 1]);
    }
}

/// Reflow keeps the state consistent.
pub proof fn lemma_reflow_wf(s: TwmView, now_ms: u64)
    requires
        s.wf(),
    ensures
        s.reflow(now_ms).wf(),
        same_ids(s.panes, s.reflow(now_ms).panes),
{
    lemma_retargeted_ids(s, s.targets(), now_ms, s.active().panes.len());
    lemma_same_ids_wf(s, s.reflow(now_ms));
}

/// Resizing keeps the state consistent.
pub proof fn lemma_resize_wf(s: TwmView, cols: u16, rows: u16, now_ms: u64)
    requires
        s.wf(),
    ensures
        s.resize(cols, rows, now_ms).wf(),
{
    lemma_reflow_wf(TwmView { cols, rows, dirty: true, ..s }, now_ms);
}

proof fn lemma_push_pos(panes: Seq<PaneView>, p: PaneView, x: PaneId)
    ensures
        pane_pos(panes, x) is Some ==> pane_pos(panes.push(p), x) is Some,
        p.id == x ==> pane_pos(panes.push(p), x) is Some,
{
    assert(panes.push(p).drop_last() =~= panes);
}

proof fn lemma_listed_is_old(s: TwmView, k: int, x: PaneId)
    requires
        s.wf(),
        0 <= k < s.workspaces.len(),
        s.workspaces[k].panes.contains(x),
    ensures
        x < s.next_id,
{
    assert(workspace_ok(s.panes, s.workspaces[k]));
    lemma_pane_pos(s.panes, x);
}

/// Opening a pane keeps the state consistent.
pub proof fn lemma_open_pane_wf(s: TwmView, content: ContentView)
    requires
        s.wf(),
        s.next_id < u32::MAX,
    ensures
        s.open_pane(content).wf(),
{
    let t = s.open_pane(content);
    let id = s.next_id;
    let p = t.panes.last();
    assert(t.panes.drop_last() =~= s.panes);
    assert forall|k: int| 0 <= k < t.workspaces.len() implies workspace_ok(
        t.panes,
        #[trigger] t.workspaces[k],
    ) by {
        let w = s.workspaces[k];
        let v = t.workspaces[k];
        assert(workspace_ok(s.panes, w));
        if k == s.active_ws {
            assert(!w.panes.contains(id)) by {
                if w.panes.contains(id) {
                    lemma_listed_is_old(s, k, id);
                }
            }
            assert(v.panes.no_duplicates()) by {
                assert forall|i: int, j: int|
                    0 <= i < v.panes.len() && 0 <= j < v.panes.len() && i != j implies v.panes[i]
                    != v.panes[j] by {
                    if i == w.panes.len() {
                        assert(w.panes.contains(w.panes[j]));
                    } else if j == w.panes.len() {
                        assert(w.panes.contains(w.panes[i]));
                    }
                }
            }
            assert forall|x: PaneId| #[trigger] v.panes.contains(x) implies pane_pos(t.panes, x)
                is Some by {
                let m = choose|m: int| 0 <= m < v.panes.len() && v.panes[m] == x;
                if m < w.panes.len() {
                    assert(w.panes.contains(w.panes[m]));
                }
                lemma_push_pos(s.panes, p, x);
            }
            assert(v.panes[w.panes.len() as int] == id);
        } else {
            assert forall|x: PaneId| #[trigger] v.panes.contains(x) implies pane_pos(t.panes, x)
                is Some by {
                lemma_push_pos(s.panes, p, x);
            }
        }
    }
    assert(disjoint(t.workspaces)) by {
        assert forall|k: int, m: int, x: PaneId|
            0 <= k < t.workspaces.len() && 0 <= m < t.workspaces.len() && k != m
                && #[trigger] t.workspaces[k].panes.contains(x) implies !(
        #[trigger] t.workspaces[m].panes.contains(x)) by {
            let a = s.active_ws;
            if t.workspaces[m].panes.contains(x) {
                let ik = choose|i: int|
                    0 <= i < t.workspaces[k].panes.len() && t.workspaces[k].panes[i] == x;
                let im = choose|i: int|
                    0 <= i < t.workspaces[m].panes.len() && t.workspaces[m].panes[i] == x;
                if k == a && ik == s.workspaces[a].panes.len() {
                    assert(s.workspaces[m].panes.contains(x));
                    lemma_listed_is_old(s, m, x);
                } else if m == a && im == s.workspaces[a].panes.len() {
                    assert(s.workspaces[k].panes.contains(x));
                    lemma_listed_is_old(s, k, x);
                } else {
                    assert(s.workspaces[k].panes[ik] == x);
                    assert(s.workspaces[m].panes[im] == x);
                    assert(s.workspaces[k].panes.contains(x));
                    assert(s.workspaces[m].panes.contains(x));
                }
            }
        }
    }
}

/// Giving a pane to an embedded client keeps the state consistent.
pub proof fn lemma_assign_embedded_wf(s: TwmView, app_id: Seq<char>)
    requires
        s.wf(),
        s.next_id < u32::MAX,
    ensures
        s.assign_embedded(app_id).wf(),
{
    match s.focused_slot() {
        Some(i) => {
            lemma_pane_pos(s.panes, s.active().focused->0);
            lemma_same_ids_wf(s, s.assign_embedded(app_id));
        },
        None => {
            lemma_open_pane_wf(s, ContentView::Embedded { app_id });
        },
    }
}

proof fn lemma_remove_pos(panes: Seq<PaneView>, i: int, x: PaneId)
    requires
        0 <= i < panes.len(),
        panes[i].id != x,
        pane_pos(panes, x) is Some,
    ensures
        pane_pos(panes.remove(i), x) is Some,
{
    lemma_pane_pos(panes, x);
    let j = pane_pos(panes, x)->0;
    let q = panes.remove(i);
    if j < i {
        assert(q[j].id == x);
    } else {
        assert(q[j - 1].id == x);
    }
    lemma_has_pane(q, x);
}

/// Closing a pane keeps the state consistent.
pub proof fn lemma_close_pane_wf(s: TwmView, id: PaneId)
    requires
        s.wf(),
    ensures
        s.close_pane(id).wf(),
        !s.close_pane(id).has_pane(id),
{
    let t = s.close_pane(id);
    lemma_pane_pos(s.panes, id);
    match pane_pos(s.panes, id) {
        Some(i) => {
            assert(ids_ok(t.panes, t.next_id)) by {
                assert forall|a: int| 0 <= a < t.panes.len() implies (#[trigger] t.panes[a]).id
                    < t.next_id by {
                    if a < i {
                        assert(t.panes[a] == s.panes[a]);
                    } else {
                        assert(t.panes[a] == s.panes[a + 1]);
                    }
                }
                assert forall|a: int, b: int|
                    0 <= a < t.panes.len() && 0 <= b < t.panes.len() && a != b implies (
                #[trigger] t.panes[a]).id != (#[trigger] t.panes[b]).id by {
                    let a0 = if a < i { a } else { a + 1 };
                    let b0 = if b < i { b } else { b + 1 };
                    assert(t.panes[a] == s.panes[a0]);
                    assert(t.panes[b] == s.panes[b0]);
                }
            }
            assert(!t.has_pane(id)) by {
                lemma_pane_pos(t.panes, id);
                if pane_pos(t.panes, id) is Some {
                    let j = pane_pos(t.panes, id)->0;
                    let j0 = if j < i { j } else { j + 1 };
                    assert(t.panes[j] == s.panes[j0]);
                    assert(s.panes[j0].id == s.panes[i].id);
                }
            }
        },
        None => {},
    }
    assert forall|k: int| 0 <= k < t.workspaces.len() implies workspace_ok(
        t.panes,
        #[trigger] t.workspaces[k],
    ) by {
        let w = s.workspaces[k];
        let v = t.workspaces[k];
        assert(workspace_ok(s.panes, w));
        lemma_without(w.panes, id);
        assert(v.panes == without(w.panes, id));
        assert forall|x: PaneId| #[trigger] v.panes.contains(x) implies pane_pos(t.panes, x)
            is Some by {
            assert(w.panes.contains(x) && x != id);
            match pane_pos(s.panes, id) {
                Some(i) => {
                    lemma_remove_pos(s.panes, i, x);
                },
                None => {},
            }
        }
        match v.focused {
            Some(f) => {
                if w.focused == Some(id) {
                    assert(v.panes[v.panes.len() - 1] == f);
                } else {
                    assert(w.panes.contains(f));
                }
            },
            None => {},
        }
    }
    assert(disjoint(t.workspaces)) by {
        assert forall|k: int, m: int, x: PaneId|
            0 <= k < t.workspaces.len() && 0 <= m < t.workspaces.len() && k != m
                && #[trigger] t.workspaces[k].panes.contains(x) implies !(
        #[trigger] t.workspaces[m].panes.contains(x)) by {
            lemma_without(s.workspaces[k].panes, id);
            lemma_without(s.workspaces[m].panes, id);
            assert(s.workspaces[k].panes.contains(x));
            if t.workspaces[m].panes.contains(x) {
                assert(s.workspaces[m].panes.contains(x));
            }
        }
    }
}

proof fn lemma_nearest_listed(
    s: TwmView,
    from: PaneId,
    cx: int,
    cy: int,
    dx: int,
    dy: int,
    now_ms: u64,
    k: nat,
)
    requires
        k <= s.active().panes.len(),
    ensures
        s.nearest(from, cx, cy, dx, dy, now_ms, k) matches Some(b) ==> s.active().panes.contains(
            b.0,
        ) && b.0 != from,
    decreases k,
{
    if k > 0 {
        lemma_nearest_listed(s, from, cx, cy, dx, dy, now_ms, (k - 1) as nat);
        assert(s.active().panes.contains(s.active().panes[k - 1]));
    }
}

proof fn lemma_with_active_wf(s: TwmView, t: TwmView, w: WorkspaceView)
    requires
        s.wf(),
        t == (TwmView { dirty: t.dirty, ..s }).with_active(w),
        workspace_ok(s.panes, w),
        forall|x: PaneId| w.panes.contains(x) <==> s.active().panes.contains(x),
    ensures
        t.wf(),
{
    assert forall|k: int| 0 <= k < t.workspaces.len() implies workspace_ok(
        t.panes,
        #[trigger] t.workspaces[k],
    ) by {
        assert(workspace_ok(s.panes, s.workspaces[k]));
    }
    assert(disjoint(t.workspaces)) by {
        assert forall|k: int, m: int, x: PaneId|
            0 <= k < t.workspaces.len() && 0 <= m < t.workspaces.len() && k != m
                && #[trigger] t.workspaces[k].panes.contains(x) implies !(
        #[trigger] t.workspaces[m].panes.contains(x)) by {
            assert(s.workspaces[k].panes.contains(x));
            if t.workspaces[m].panes.contains(x) {
                assert(s.workspaces[m].panes.contains(x));
            }
        }
    }
}

proof fn lemma_swapped(p: Seq<PaneId>, i: int, j: int)
    requires
        0 <= i < p.len(),
        0 <= j < p.len(),
    ensures
        swapped(p, i, j).len() == p.len(),
        forall|x: PaneId| #[trigger] swapped(p, i, j).contains(x) <==> p.contains(x),
        p.no_duplicates() ==> swapped(p, i, j).no_duplicates(),
{
    let q = swapped(p, i, j);
    assert forall|x: PaneId| q.contains(x) <==> p.contains(x) by {
        if q.contains(x) {
            let m = choose|m: int| 0 <= m < q.len() && q[m] == x;
            let m0 = if m == i { j } else if m == j { i } else { m };
            assert(p[m0] == x);
        }
        if p.contains(x) {
            let m = choose|m: int| 0 <= m < p.len() && p[m] == x;
            let m0 = if m == i { j } else if m == j { i } else { m };
            assert(q[m0] == x);
        }
    }
    if p.no_duplicates() {
        assert forall|a: int, b: int| 0 <= a < q.len() && 0 <= b < q.len() && a != b implies q[a]
            != q[b] by {
            let a0 = if a == i { j } else if a == j { i } else { a };
            let b0 = if b == i { j } else if b == j { i } else { b };
            assert(q[a] == p[a0]);
            assert(q[b] == p[b0]);
        }
    }
}

/// The neighbours of a position on a ring of `n` places.
pub proof fn lemma_ring(cur: int, n: int)
    requires
        0 <= cur < n,
    ensures
        0 <= (cur + 1) % n < n,
        0 <= (cur + n - 1) % n < n,
        (cur + 1) % n == (if cur + 1 == n { 0 } else { cur + 1 }),
        (cur + n - 1) % n == (if cur == 0 { n - 1 } else { cur - 1 }),
{
    if cur + 1 == n {
        vstd::arithmetic::div_mod::lemma_mod_self_0(n);
    } else {
        vstd::arithmetic::div_mod::lemma_small_mod((cur + 1) as nat, n as nat);
    }
    if cur == 0 {
        vstd::arithmetic::div_mod::lemma_small_mod((n - 1) as nat, n as nat);
    } else {
        vstd::arithmetic::div_mod::lemma_mod_add_multiples_vanish(cur - 1, n);
        vstd::arithmetic::div_mod::lemma_small_mod((cur - 1) as nat, n as nat);
    }
}

proof fn lemma_move_wf(s: TwmView, forward: bool)
    requires
        s.wf(),
    ensures
        s.move_focused(forward).wf(),
{
    let w = s.active();
    let v = s.move_focused(forward).active();
    assert(workspace_ok(s.panes, w));
    if w.panes.len() >= 2 && w.focused is Some {
        let fid = w.focused->0;
        lemma_id_pos(w.panes, fid);
        if id_pos(w.panes, fid) is Some {
            let cur = id_pos(w.panes, fid)->0;
            lemma_ring(cur, w.panes.len() as int);
            let tgt = if forward {
                (cur + 1) % (w.panes.len() as int)
            } else {
                (cur + w.panes.len() - 1) % (w.panes.len() as int)
            };
            lemma_swapped(w.panes, cur, tgt);
            assert(v.panes == swapped(w.panes, cur, tgt));
            assert forall|x: PaneId| v.panes.contains(x) <==> w.panes.contains(x) by {}
            assert forall|x: PaneId| #[trigger] v.panes.contains(x) implies pane_pos(s.panes, x)
                is Some by {
                assert(w.panes.contains(x));
            }
            assert(v.panes.contains(fid)) by {
                assert(w.panes.contains(fid));
            }
        } else {
            assert(v == w);
        }
    } else {
        assert(v == w);
    }
    lemma_with_active_wf(s, s.move_focused(forward), v);
}

proof fn lemma_send_wf(s: TwmView, idx: int)
    requires
        s.wf(),
    ensures
        s.send_focused(idx).wf(),
{
    let t = s.send_focused(idx);
    if idx != s.active_ws && 0 <= idx < s.workspaces.len() && s.active().focused is Some {
        let id = s.active().focused->0;
        let a = s.active_ws;
        let here = s.workspaces[a];
        let there = s.workspaces[idx];
        assert(workspace_ok(s.panes, here));
        assert(workspace_ok(s.panes, there));
        lemma_without(here.panes, id);
        let kept = without(here.panes, id);
        assert(here.panes.contains(id));
        assert(!there.panes.contains(id));
        assert forall|k: int| 0 <= k < t.workspaces.len() implies workspace_ok(
            t.panes,
            #[trigger] t.workspaces[k],
        ) by {
            let v = t.workspaces[k];
            assert(workspace_ok(s.panes, s.workspaces[k]));
            if k == idx {
                assert(v.panes == there.panes.push(id));
                assert(v.panes.no_duplicates()) by {
                    assert forall|i: int, j: int|
                        0 <= i < v.panes.len() && 0 <= j < v.panes.len() && i != j implies v.panes[i]
                        != v.panes[j] by {
                        if i == there.panes.len() {
                            assert(there.panes.contains(there.panes[j]));
                        } else if j == there.panes.len() {
                            assert(there.panes.contains(there.panes[i]));
                        }
                    }
                }
                assert forall|x: PaneId| #[trigger] v.panes.contains(x) implies pane_pos(
                    t.panes,
                    x,
                ) is Some by {
                    let m = choose|m: int| 0 <= m < v.panes.len() && v.panes[m] == x;
                    if m < there.panes.len() {
                        assert(there.panes.contains(there.panes[m]));
                    }
                }
                assert(v.panes[there.panes.len() as int] == id);
            } else if k == a {
                assert(v.panes == kept);
                if kept.len() > 0 {
                    assert(kept[kept.len() - 1] == kept.last());
                }
            }
        }
        assert(disjoint(t.workspaces)) by {
            assert forall|k: int, m: int, x: PaneId|
                0 <= k < t.workspaces.len() && 0 <= m < t.workspaces.len() && k != m
                    && #[trigger] t.workspaces[k].panes.contains(x) implies !(
            #[trigger] t.workspaces[m].panes.contains(x)) by {
                if t.workspaces[m].panes.contains(x) {
                    let in_old = |q: int|
                        if q == idx {
                            x == id || there.panes.contains(x)
                        } else {
                            s.workspaces[q].panes.contains(x) && (q != a || x != id)
                        };
                    assert(in_old(k)) by {
                        if k == idx {
                            let i = choose|i: int|
                                0 <= i < t.workspaces[k].panes.len() && t.workspaces[k].panes[i]
                                    == x;
                            if i < there.panes.len() {
                                assert(there.panes[i] == x);
                            }
                        }
                    }
                    assert(in_old(m)) by {
                        if m == idx {
                            let i = choose|i: int|
                                0 <= i < t.workspaces[m].panes.len() && t.workspaces[m].panes[i]
                                    == x;
                            if i < there.panes.len() {
                                assert(there.panes[i] == x);
                            }
                        }
                    }
                    if x == id {
                        assert(s.workspaces[a].panes.contains(x));
                    }
                }
            }
        }
    }
}

/// Every action keeps the state consistent.
pub proof fn lemma_step_wf(s: TwmView, action: ActionView, now_ms: u64)
    requires
        s.wf(),
        s.can_step(action),
    ensures
        s.step(action, now_ms).wf(),
{
    let t = s.step(action, now_ms);
    let w = s.active();
    assert(workspace_ok(s.panes, w));
    match action {
        ActionView::FocusLeft => lemma_focus_wf(s, -1, 0, now_ms),
        ActionView::FocusRight => lemma_focus_wf(s, 1, 0, now_ms),
        ActionView::FocusUp => lemma_focus_wf(s, 0, -1, now_ms),
        ActionView::FocusDown => lemma_focus_wf(s, 0, 1, now_ms),
        ActionView::MoveLeft => lemma_move_wf(s, false),
        ActionView::MoveRight => lemma_move_wf(s, true),
        ActionView::Close => {
            if w.focused is Some {
                lemma_close_pane_wf(s, w.focused->0);
            }
        },
        ActionView::Workspace(n) => {},
        ActionView::MoveToWorkspace(n) => lemma_send_wf(
            s,
            crate::geometry::sat_sub(n as int, 1),
        ),
        ActionView::NextLayout => lemma_with_active_wf(s, t, t.active()),
        ActionView::GrowMain => lemma_with_active_wf(s, t, t.active()),
        ActionView::ShrinkMain => lemma_with_active_wf(s, t, t.active()),
        ActionView::NextWorkspace => {},
        ActionView::PrevWorkspace => {},
        ActionView::ToggleBar => {},
        ActionView::Fullscreen => {
            if w.focused is Some {
                lemma_pane_pos(s.panes, w.focused->0);
            }
            lemma_same_ids_wf(s, t);
        },
        ActionView::OpenShell(title) => lemma_open_pane_wf(s, ContentView::Shell { title }),
    }
}

proof fn lemma_focus_wf(s: TwmView, dx: int, dy: int, now_ms: u64)
    requires
        s.wf(),
    ensures
        s.focus_dir(dx, dy, now_ms).wf(),
{
    let t = s.focus_dir(dx, dy, now_ms);
    let w = s.active();
    assert(workspace_ok(s.panes, w));
    if w.focused is Some && pane_pos(s.panes, w.focused->0) is Some {
        let fid = w.focused->0;
        let i = pane_pos(s.panes, fid)->0;
        let cur = s.panes[i].anim.current_at(now_ms);
        let cx = TwmView::mid(cur.x, cur.width);
        let cy = TwmView::mid(cur.y, cur.height);
        lemma_nearest_listed(s, fid, cx, cy, dx, dy, now_ms, w.panes.len());
        if s.nearest(fid, cx, cy, dx, dy, now_ms, w.panes.len()) is Some {
            lemma_with_active_wf(s, t, t.active());
        }
    }
}

/// A new window manager's state is consistent.
pub proof fn lemma_initial_wf(cols: u16, rows: u16)
    ensures
        TwmView::initial(cols, rows).wf(),
{
    let s = TwmView::initial(cols, rows);
    assert forall|k: int| 0 <= k < s.workspaces.len() implies workspace_ok(
        s.panes,
        #[trigger] s.workspaces[k],
    ) by {
        let w = s.workspaces[k];
        assert forall|x: PaneId| #[trigger] w.panes.contains(x) implies pane_pos(s.panes, x)
            is Some by {
            assert(k == 0 && x == 1);
            assert(s.panes.drop_last() =~= Seq::<PaneView>::empty());
        }
        if k == 0 {
            assert(w.panes[0] == 1);
        }
    }
}

// ── laws ─────────────────────────────────────────────────────────────────────

/// After any action on a consistent state, the focus of the active
/// workspace, if there is one, is an existing pane listed by that workspace.
pub proof fn law_focus_valid(s: TwmView, action: ActionView, now_ms: u64)
    requires
        s.wf(),
        s.can_step(action),
    ensures
        s.step(action, now_ms).active().focused matches Some(id) ==> s.step(
            action,
            now_ms,
        ).has_pane(id) && s.step(action, now_ms).active().panes.contains(id),
{
    lemma_step_wf(s, action, now_ms);
    let t = s.step(action, now_ms);
    assert(workspace_ok(t.panes, t.workspaces[t.active_ws]));
}

/// Four times "next layout" gives the active workspace the layout it had.
pub proof fn law_next_layout_cycle(s: TwmView, now_ms: u64)
    requires
        s.wf(),
    ensures
        s.step(ActionView::NextLayout, now_ms).step(ActionView::NextLayout, now_ms).step(
            ActionView::NextLayout,
            now_ms,
        ).step(ActionView::NextLayout, now_ms).active().layout == s.active().layout,
        s.step(ActionView::NextLayout, now_ms).step(ActionView::NextLayout, now_ms).step(
            ActionView::NextLayout,
            now_ms,
        ).step(ActionView::NextLayout, now_ms).workspaces =~= s.workspaces,
{
}

/// Growing the main share and then shrinking it gives the share it was,
/// unless growing ran into the upper bound.
pub proof fn law_grow_shrink(s: TwmView, now_ms: u64)
    requires
        s.wf(),
        s.active().main_ratio_pct + RATIO_STEP <= MAX_RATIO,
    ensures
        s.step(ActionView::GrowMain, now_ms).step(ActionView::ShrinkMain, now_ms).workspaces
            =~= s.workspaces,
{
    assert(workspace_ok(s.panes, s.workspaces[s.active_ws]));
}

/// Switching to workspace `k` and then back to the number of the workspace
/// that was active restores the active workspace.
pub proof fn law_workspace_round_trip(s: TwmView, k: u8, now_ms: u64)
    requires
        s.wf(),
    ensures
        s.step(ActionView::Workspace(k), now_ms).step(
            ActionView::Workspace((s.active_ws + 1) as u8),
            now_ms,
        ).active_ws == s.active_ws,
{
}

/// Moving the focused pane left and then right restores the order of the
/// panes, where the workspace has at least two panes.
pub proof fn law_move_round_trip(s: TwmView, now_ms: u64)
    requires
        s.wf(),
        s.active().panes.len() >= 2,
        s.active().focused is Some,
    ensures
        s.step(ActionView::MoveLeft, now_ms).step(ActionView::MoveRight, now_ms).active().panes
            == s.active().panes,
{
    let w = s.active();
    let n = w.panes.len() as int;
    let fid = w.focused->0;
    assert(workspace_ok(s.panes, w));
    lemma_id_pos(w.panes, fid);
    let cur = id_pos(w.panes, fid)->0;
    lemma_ring(cur, n);
    let tgt = (cur + n - 1) % n;
    let mid = s.step(ActionView::MoveLeft, now_ms);
    let v = mid.active();
    assert(v.panes == swapped(w.panes, cur, tgt));
    lemma_swapped(w.panes, cur, tgt);
    lemma_id_pos(v.panes, fid);
    assert(v.panes[tgt] == fid);
    assert(id_pos(v.panes, fid) == Some(tgt)) by {
        let got = id_pos(v.panes, fid)->0;
        if got != tgt {
            assert(v.panes[got] == v.panes[tgt]);
        }
    }
    lemma_ring(tgt, n);
    assert((tgt + 1) % n == cur);
    let end = mid.step(ActionView::MoveRight, now_ms);
    assert(end.active().panes =~= w.panes);
}

} // verus!

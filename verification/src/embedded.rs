//! Embedded clients: placements reserved before a client connects, the
//! claim that turns a reservation into an entry, and what the compositor
//! keeps of each embedded surface.

use crate::box_drawing::MAX_CELL;
use crate::geometry::CellRect;
use crate::text::str_eq;
use vstd::prelude::*;

verus! {

/// Where an embedded surface goes on the output, in physical pixels.
#[derive(Debug, Clone, Copy, PartialEq, Eq, Structural)]
pub struct EmbeddedPlacement {
    pub x: i32,
    pub y: i32,
    pub w: i32,
    pub h: i32,
}

impl EmbeddedPlacement {
    /// The size to configure the client with.
    pub fn logical_size(&self) -> (s: (i32, i32))
        ensures
            s == (self.w, self.h),
    {
        (self.w, self.h)
    }
}

/// An application that is embedded rather than tiled, with its place.
#[derive(Debug, Clone)]
pub struct EmbeddedConfig {
    pub app_id: String,
    pub x: i32,
    pub y: i32,
    pub w: i32,
    pub h: i32,
}

impl EmbeddedConfig {
    pub fn placement(&self) -> (p: EmbeddedPlacement)
        ensures
            p == (EmbeddedPlacement { x: self.x, y: self.y, w: self.w, h: self.h }),
    {
        EmbeddedPlacement { x: self.x, y: self.y, w: self.w, h: self.h }
    }
}

/// Identity of a client surface.
pub type SurfaceId = u64;

/// What the compositor keeps of one embedded surface.
pub struct EmbeddedEntry {
    pub app_id: String,
    pub surface: SurfaceId,
    pub placement: EmbeddedPlacement,
    /// A texture has been imported for the surface.
    pub has_texture: bool,
    /// Counts the commits that brought a texture; wraps around.
    pub commit_counter: u32,
    pub mapped: bool,
}

pub struct EntryView {
    pub app_id: Seq<char>,
    pub surface: SurfaceId,
    pub placement: EmbeddedPlacement,
    pub has_texture: bool,
    pub commit_counter: u32,
    pub mapped: bool,
}

impl View for EmbeddedEntry {
    type V = EntryView;

    open spec fn view(&self) -> EntryView {
        EntryView {
            app_id: self.app_id@,
            surface: self.surface,
            placement: self.placement,
            has_texture: self.has_texture,
            commit_counter: self.commit_counter,
            mapped: self.mapped,
        }
    }
}

/// A placement reserved for a client that has not connected yet.
pub struct PendingPlacement {
    pub app_id: String,
    pub placement: EmbeddedPlacement,
}

impl View for PendingPlacement {
    type V = (Seq<char>, EmbeddedPlacement);

    open spec fn view(&self) -> (Seq<char>, EmbeddedPlacement) {
        (self.app_id@, self.placement)
    }
}

/// State of an embedded window as the control socket reports it.
#[derive(Debug, Clone)]
pub struct WindowStatus {
    pub app_id: String,
    pub x: i32,
    pub y: i32,
    pub w: i32,
    pub h: i32,
    /// True once the client has committed its first buffer.
    pub mapped: bool,
}

/// What is drawn for one embedded surface: its texture, named by the
/// application id, stretched over its placement.
#[derive(Debug, Clone)]
pub struct RenderItem {
    pub app_id: String,
    pub placement: EmbeddedPlacement,
    pub commit_counter: u32,
}

// ── model ────────────────────────────────────────────────────────────────────

pub struct ManagerView {
    pub entries: Seq<EntryView>,
    pub pending: Seq<(Seq<char>, EmbeddedPlacement)>,
}

/// Position of the entry of the application `id`.
pub open spec fn entry_pos(entries: Seq<EntryView>, id: Seq<char>) -> Option<int>
    decreases entries.len(),
{
    if entries.len() == 0 {
        None
    } else if entry_pos(entries.drop_last(), id) is Some {
        entry_pos(entries.drop_last(), id)
    } else if entries.last().app_id == id {
        Some(entries.len() - 1)
    } else {
        None
    }
}

/// Position of the first entry that owns `surface`.
pub open spec fn surface_pos(entries: Seq<EntryView>, surface: SurfaceId) -> Option<int>
    decreases entries.len(),
{
    if entries.len() == 0 {
        None
    } else if surface_pos(entries.drop_last(), surface) is Some {
        surface_pos(entries.drop_last(), surface)
    } else if entries.last().surface == surface {
        Some(entries.len() - 1)
    } else {
        None
    }
}

/// Position of the reservation for the application `id`.
pub open spec fn pending_pos(pending: Seq<(Seq<char>, EmbeddedPlacement)>, id: Seq<char>) -> Option<
    int,
>
    decreases pending.len(),
{
    if pending.len() == 0 {
        None
    } else if pending_pos(pending.drop_last(), id) is Some {
        pending_pos(pending.drop_last(), id)
    } else if pending.last().0 == id {
        Some(pending.len() - 1)
    } else {
        None
    }
}

pub proof fn lemma_entry_pos(entries: Seq<EntryView>, id: Seq<char>)
    ensures
        match entry_pos(entries, id) {
            Some(i) => 0 <= i < entries.len() && entries[i].app_id == id && forall|j: int|
                0 <= j < i ==> entries[j].app_id != id,
            None => forall|j: int| 0 <= j < entries.len() ==> entries[j].app_id != id,
        },
    decreases entries.len(),
{
    if entries.len() > 0 {
        let d = entries.drop_last();
        lemma_entry_pos(d, id);
        assert forall|j: int| 0 <= j < d.len() implies #[trigger] entries[j] == d[j] by {}
        match entry_pos(d, id) {
            Some(i) => {
                assert(entries[i] == d[i]);
            },
            None => {},
        }
    }
}

pub proof fn lemma_surface_pos(entries: Seq<EntryView>, surface: SurfaceId)
    ensures
        match surface_pos(entries, surface) {
            Some(i) => 0 <= i < entries.len() && entries[i].surface == surface && forall|j: int|
                0 <= j < i ==> entries[j].surface != surface,
            None => forall|j: int| 0 <= j < entries.len() ==> entries[j].surface != surface,
        },
    decreases entries.len(),
{
    if entries.len() > 0 {
        let d = entries.drop_last();
        lemma_surface_pos(d, surface);
        assert forall|j: int| 0 <= j < d.len() implies #[trigger] entries[j] == d[j] by {}
        match surface_pos(d, surface) {
            Some(i) => {
                assert(entries[i] == d[i]);
            },
            None => {},
        }
    }
}

pub proof fn lemma_pending_pos(pending: Seq<(Seq<char>, EmbeddedPlacement)>, id: Seq<char>)
    ensures
        match pending_pos(pending, id) {
            Some(i) => 0 <= i < pending.len() && pending[i].0 == id && forall|j: int|
                0 <= j < i ==> pending[j].0 != id,
            None => forall|j: int| 0 <= j < pending.len() ==> pending[j].0 != id,
        },
    decreases pending.len(),
{
    if pending.len() > 0 {
        let d = pending.drop_last();
        lemma_pending_pos(d, id);
        assert forall|j: int| 0 <= j < d.len() implies #[trigger] pending[j] == d[j] by {}
        match pending_pos(d, id) {
            Some(i) => {
                assert(pending[i] == d[i]);
            },
            None => {},
        }
    }
}

/// A fresh entry for a surface that was just claimed.
pub open spec fn claimed_entry(id: Seq<char>, surface: SurfaceId, p: EmbeddedPlacement) -> EntryView {
    EntryView {
        app_id: id,
        surface,
        placement: p,
        has_texture: false,
        commit_counter: 0,
        mapped: false,
    }
}

impl ManagerView {
    pub open spec fn has_entry(self, id: Seq<char>) -> bool {
        entry_pos(self.entries, id) is Some
    }

    pub open spec fn has_pending(self, id: Seq<char>) -> bool {
        pending_pos(self.pending, id) is Some
    }

    /// Every application has at most one entry and at most one
    /// reservation, and never both.
    pub open spec fn wf(self) -> bool {
        &&& forall|i: int, j: int|
            0 <= i < self.entries.len() && 0 <= j < self.entries.len() && i != j ==> (
            #[trigger] self.entries[i]).app_id != (#[trigger] self.entries[j]).app_id
        &&& forall|i: int, j: int|
            0 <= i < self.pending.len() && 0 <= j < self.pending.len() && i != j ==> (
            #[trigger] self.pending[i]).0 != (#[trigger] self.pending[j]).0
        &&& forall|i: int, j: int|
            0 <= i < self.entries.len() && 0 <= j < self.pending.len() ==> (
            #[trigger] self.entries[i]).app_id != (#[trigger] self.pending[j]).0
    }

    /// A placement is asked for: it replaces the placement of the
    /// application's entry or of its reservation; if it has neither, it
    /// becomes a new reservation.
    pub open spec fn request(self, id: Seq<char>, p: EmbeddedPlacement) -> ManagerView {
        match entry_pos(self.entries, id) {
            Some(i) => ManagerView {
                entries: self.entries.update(i, EntryView { placement: p, ..self.entries[i] }),
                ..self
            },
            None => match pending_pos(self.pending, id) {
                Some(j) => ManagerView { pending: self.pending.update(j, (id, p)), ..self },
                None => ManagerView { pending: self.pending.push((id, p)), ..self },
            },
        }
    }

    /// A surface of the application `id` appears: if a placement is
    /// reserved for it, the reservation becomes an entry.
    pub open spec fn claim(self, id: Seq<char>, surface: SurfaceId) -> ManagerView {
        match pending_pos(self.pending, id) {
            Some(j) => ManagerView {
                entries: self.entries.push(claimed_entry(id, surface, self.pending[j].1)),
                pending: self.pending.remove(j),
            },
            None => self,
        }
    }

    /// A surface commits: if it is embedded and a texture came with the
    /// commit, the entry is mapped and its commit counter moves on.
    pub open spec fn commit(self, surface: SurfaceId, texture_ready: bool) -> ManagerView {
        match surface_pos(self.entries, surface) {
            Some(i) => if texture_ready {
                ManagerView {
                    entries: self.entries.update(
                        i,
                        EntryView {
                            has_texture: true,
                            commit_counter: if self.entries[i].commit_counter == u32::MAX {
                                0
                            } else {
                                (self.entries[i].commit_counter + 1) as u32
                            },
                            mapped: true,
                            ..self.entries[i]
                        },
                    ),
                    ..self
                }
            } else {
                self
            },
            None => self,
        }
    }

    /// The placement of an entry or of a reservation changes; an
    /// application that has neither is ignored.
    pub open spec fn update(self, id: Seq<char>, p: EmbeddedPlacement) -> ManagerView {
        match entry_pos(self.entries, id) {
            Some(i) => ManagerView {
                entries: self.entries.update(i, EntryView { placement: p, ..self.entries[i] }),
                ..self
            },
            None => match pending_pos(self.pending, id) {
                Some(j) => ManagerView { pending: self.pending.update(j, (id, p)), ..self },
                None => self,
            },
        }
    }

    /// The application's entry and reservation are dropped.
    pub open spec fn remove(self, id: Seq<char>) -> ManagerView {
        ManagerView {
            entries: match entry_pos(self.entries, id) {
                Some(i) => self.entries.remove(i),
                None => self.entries,
            },
            pending: match pending_pos(self.pending, id) {
                Some(j) => self.pending.remove(j),
                None => self.pending,
            },
        }
    }

    /// A surface is gone: the entry that owned it is dropped.
    pub open spec fn surface_destroyed(self, surface: SurfaceId) -> ManagerView {
        match surface_pos(self.entries, surface) {
            Some(i) => self.remove(self.entries[i].app_id),
            None => self,
        }
    }
}

// ── laws ─────────────────────────────────────────────────────────────────────

/// No application has a reservation and an entry at once.
pub proof fn law_pending_or_entry(m: ManagerView, id: Seq<char>)
    requires
        m.wf(),
    ensures
        !(m.has_entry(id) && m.has_pending(id)),
{
    lemma_entry_pos(m.entries, id);
    lemma_pending_pos(m.pending, id);
}

/// Every operation keeps the state consistent.
pub proof fn lemma_ops_wf(m: ManagerView, id: Seq<char>, p: EmbeddedPlacement, surface: SurfaceId, ready: bool)
    requires
        m.wf(),
    ensures
        m.request(id, p).wf(),
        m.claim(id, surface).wf(),
        m.commit(surface, ready).wf(),
        m.update(id, p).wf(),
        m.remove(id).wf(),
        m.surface_destroyed(surface).wf(),
        !m.remove(id).has_entry(id),
        !m.remove(id).has_pending(id),
{
    lemma_entry_pos(m.entries, id);
    lemma_pending_pos(m.pending, id);
    lemma_surface_pos(m.entries, surface);
    lemma_remove_wf(m, id);
    match surface_pos(m.entries, surface) {
        Some(i) => {
            lemma_remove_wf(m, m.entries[i].app_id);
        },
        None => {},
    }
    match pending_pos(m.pending, id) {
        Some(j) => {
            let t = m.claim(id, surface);
            assert forall|a: int, b: int|
                0 <= a < t.pending.len() && 0 <= b < t.pending.len() && a != b implies (
            #[trigger] t.pending[a]).0 != (#[trigger] t.pending[b]).0 by {
                let a0 = if a < j { a } else { a + 1 };
                let b0 = if b < j { b } else { b + 1 };
                assert(t.pending[a] == m.pending[a0]);
                assert(t.pending[b] == m.pending[b0]);
            }
            assert forall|a: int, b: int|
                0 <= a < t.entries.len() && 0 <= b < t.pending.len() implies (
            #[trigger] t.entries[a]).app_id != (#[trigger] t.pending[b]).0 by {
                let b0 = if b < j { b } else { b + 1 };
                assert(t.pending[b] == m.pending[b0]);
                if a == m.entries.len() {
                    assert(m.pending[j].0 == id);
                } else {
                    assert(t.entries[a] == m.entries[a]);
                }
            }
            assert forall|a: int, b: int|
                0 <= a < t.entries.len() && 0 <= b < t.entries.len() && a != b implies (
            #[trigger] t.entries[a]).app_id != (#[trigger] t.entries[b]).app_id by {
                if a == m.entries.len() {
                    assert(t.entries[b] == m.entries[b]);
                    assert(m.entries[b].app_id != m.pending[j].0);
                } else if b == m.entries.len() {
                    assert(t.entries[a] == m.entries[a]);
                    assert(m.entries[a].app_id != m.pending[j].0);
                } else {
                    assert(t.entries[a] == m.entries[a]);
                    assert(t.entries[b] == m.entries[b]);
                }
            }
        },
        None => {},
    }
}

proof fn lemma_remove_wf(m: ManagerView, id: Seq<char>)
    requires
        m.wf(),
    ensures
        m.remove(id).wf(),
        !m.remove(id).has_entry(id),
        !m.remove(id).has_pending(id),
{
    let t = m.remove(id);
    lemma_entry_pos(m.entries, id);
    lemma_pending_pos(m.pending, id);
    let ei = entry_pos(m.entries, id);
    let pj = pending_pos(m.pending, id);
    let e0 = |a: int| if ei is Some && a >= ei->0 { a + 1 } else { a };
    let p0 = |b: int| if pj is Some && b >= pj->0 { b + 1 } else { b };
    assert forall|a: int| 0 <= a < t.entries.len() implies #[trigger] t.entries[a] == m.entries[e0(
        a,
    )] && 0 <= e0(a) < m.entries.len() by {}
    assert forall|b: int| 0 <= b < t.pending.len() implies #[trigger] t.pending[b] == m.pending[p0(
        b,
    )] && 0 <= p0(b) < m.pending.len() by {}
    assert forall|a: int, b: int|
        0 <= a < t.entries.len() && 0 <= b < t.entries.len() && a != b implies (
    #[trigger] t.entries[a]).app_id != (#[trigger] t.entries[b]).app_id by {
        assert(t.entries[a] == m.entries[e0(a)]);
        assert(t.entries[b] == m.entries[e0(b)]);
    }
    assert forall|a: int, b: int|
        0 <= a < t.pending.len() && 0 <= b < t.pending.len() && a != b implies (
    #[trigger] t.pending[a]).0 != (#[trigger] t.pending[b]).0 by {
        assert(t.pending[a] == m.pending[p0(a)]);
        assert(t.pending[b] == m.pending[p0(b)]);
    }
    assert forall|a: int, b: int|
        0 <= a < t.entries.len() && 0 <= b < t.pending.len() implies (
    #[trigger] t.entries[a]).app_id != (#[trigger] t.pending[b]).0 by {
        assert(t.entries[a] == m.entries[e0(a)]);
        assert(t.pending[b] == m.pending[p0(b)]);
    }
    lemma_entry_pos(t.entries, id);
    lemma_pending_pos(t.pending, id);
    if entry_pos(t.entries, id) is Some {
        let a = entry_pos(t.entries, id)->0;
        assert(t.entries[a] == m.entries[e0(a)]);
        if ei is Some {
            assert(m.entries[e0(a)].app_id == m.entries[ei->0].app_id);
        }
    }
    if pending_pos(t.pending, id) is Some {
        let b = pending_pos(t.pending, id)->0;
        assert(t.pending[b] == m.pending[p0(b)]);
        if pj is Some {
            assert(m.pending[p0(b)].0 == m.pending[pj->0].0);
        }
    }
}

/// A placement asked for and then claimed by a surface of the application
/// is an entry and no reservation any more; once the surface is destroyed,
/// the application has neither.
pub proof fn law_claimed_after_request(m: ManagerView, id: Seq<char>, p: EmbeddedPlacement, surface: SurfaceId)
    requires
        m.wf(),
        !m.has_entry(id),
    ensures
        m.request(id, p).has_pending(id),
        m.request(id, p).claim(id, surface).has_entry(id),
        !m.request(id, p).claim(id, surface).has_pending(id),
        (forall|i: int| 0 <= i < m.entries.len() ==> (#[trigger] m.entries[i]).surface != surface)
            ==> !m.request(id, p).claim(id, surface).surface_destroyed(surface).has_entry(id)
            && !m.request(id, p).claim(id, surface).surface_destroyed(surface).has_pending(id),
{
    let a = m.request(id, p);
    lemma_ops_wf(m, id, p, surface, false);
    lemma_entry_pos(m.entries, id);
    lemma_pending_pos(m.pending, id);
    lemma_pending_pos(a.pending, id);
    assert(a.has_pending(id)) by {
        match pending_pos(m.pending, id) {
            Some(j) => {
                assert(a.pending[j].0 == id);
            },
            None => {
                assert(a.pending[m.pending.len() as int].0 == id);
            },
        }
    }
    let b = a.claim(id, surface);
    lemma_ops_wf(a, id, p, surface, false);
    lemma_entry_pos(b.entries, id);
    assert(b.entries[a.entries.len() as int].app_id == id);
    law_pending_or_entry(b, id);
    if forall|i: int| 0 <= i < m.entries.len() ==> (#[trigger] m.entries[i]).surface != surface {
        lemma_surface_pos(b.entries, surface);
        assert(b.entries[a.entries.len() as int].surface == surface);
        let i = surface_pos(b.entries, surface)->0;
        assert(i == a.entries.len()) by {
            if i < a.entries.len() {
                assert(b.entries[i] == m.entries[i]);
            }
        }
        lemma_ops_wf(b, id, p, surface, false);
    }
}

// ── manager ──────────────────────────────────────────────────────────────────

/// Keeps the embedded surfaces and the placements reserved for clients
/// that have not connected yet.
pub struct EmbeddedManager {
    pub entries: Vec<EmbeddedEntry>,
    pub pending: Vec<PendingPlacement>,
}

pub open spec fn entry_views(entries: Seq<EmbeddedEntry>) -> Seq<EntryView> {
    Seq::new(entries.len(), |i: int| entries[i]@)
}

pub open spec fn pending_views(pending: Seq<PendingPlacement>) -> Seq<(Seq<char>, EmbeddedPlacement)> {
    Seq::new(pending.len(), |i: int| pending[i]@)
}

impl View for EmbeddedManager {
    type V = ManagerView;

    open spec fn view(&self) -> ManagerView {
        ManagerView { entries: entry_views(self.entries@), pending: pending_views(self.pending@) }
    }
}

/// What became of a change of placement.
#[derive(Debug, Clone, Copy, PartialEq, Eq, Structural)]
pub enum PlacementUpdate {
    /// The client is connected: it has to be configured with the new size.
    Configure,
    /// The client has not connected yet: its reservation was changed.
    Reserved,
    /// The application is not known.
    Unknown,
}

fn find_entry(entries: &Vec<EmbeddedEntry>, id: &str) -> (r: Option<usize>)
    ensures
        match r {
            Some(i) => entry_pos(entry_views(entries@), id@) == Some(i as int) && i < entries.len(),
            None => entry_pos(entry_views(entries@), id@) is None,
        },
{
    let mut i: usize = 0;
    while i < entries.len()
        invariant
            i <= entries.len(),
            forall|j: int| 0 <= j < i ==> (#[trigger] entry_views(entries@)[j]).app_id != id@,
        decreases entries.len() - i,
    {
        if str_eq(entries[i].app_id.as_str(), id) {
            proof {
                lemma_entry_pos(entry_views(entries@), id@);
                assert(entry_views(entries@)[i as int].app_id == id@);
            }
            return Some(i);
        }
        i = i + 1;
    }
    proof {
        lemma_entry_pos(entry_views(entries@), id@);
    }
    None
}

fn find_surface(entries: &Vec<EmbeddedEntry>, surface: SurfaceId) -> (r: Option<usize>)
    ensures
        match r {
            Some(i) => surface_pos(entry_views(entries@), surface) == Some(i as int) && i
                < entries.len(),
            None => surface_pos(entry_views(entries@), surface) is None,
        },
{
    let mut i: usize = 0;
    while i < entries.len()
        invariant
            i <= entries.len(),
            forall|j: int| 0 <= j < i ==> (#[trigger] entry_views(entries@)[j]).surface != surface,
        decreases entries.len() - i,
    {
        if entries[i].surface == surface {
            proof {
                lemma_surface_pos(entry_views(entries@), surface);
                assert(entry_views(entries@)[i as int].surface == surface);
            }
            return Some(i);
        }
        i = i + 1;
    }
    proof {
        lemma_surface_pos(entry_views(entries@), surface);
    }
    None
}

fn find_pending(pending: &Vec<PendingPlacement>, id: &str) -> (r: Option<usize>)
    ensures
        match r {
            Some(i) => pending_pos(pending_views(pending@), id@) == Some(i as int) && i
                < pending.len(),
            None => pending_pos(pending_views(pending@), id@) is None,
        },
{
    let mut i: usize = 0;
    while i < pending.len()
        invariant
            i <= pending.len(),
            forall|j: int| 0 <= j < i ==> (#[trigger] pending_views(pending@)[j]).0 != id@,
        decreases pending.len() - i,
    {
        if str_eq(pending[i].app_id.as_str(), id) {
            proof {
                lemma_pending_pos(pending_views(pending@), id@);
                assert(pending_views(pending@)[i as int].0 == id@);
            }
            return Some(i);
        }
        i = i + 1;
    }
    proof {
        lemma_pending_pos(pending_views(pending@), id@);
    }
    None
}

impl EmbeddedManager {
    pub open spec fn wf(&self) -> bool {
        self@.wf()
    }

    /// A manager without entries or reservations.
    pub fn new() -> (m: EmbeddedManager)
        ensures
            m.wf(),
            m@.entries.len() == 0,
            m@.pending.len() == 0,
    {
        EmbeddedManager { entries: Vec::new(), pending: Vec::new() }
    }

    /// Reserve a placement for an application that will connect soon, or
    /// replace the one it has. Returns true if the application is
    /// connected already.
    pub fn request_placement(&mut self, app_id: &str, placement: EmbeddedPlacement) -> (connected:
        bool)
        requires
            old(self).wf(),
        ensures
            final(self).wf(),
            final(self)@ == old(self)@.request(app_id@, placement),
            connected == old(self)@.has_entry(app_id@),
    {
        proof {
            lemma_ops_wf(self@, app_id@, placement, 0, false);
        }
        match find_entry(&self.entries, app_id) {
            Some(i) => {
                self.entries[i].placement = placement;
                proof {
                    let m = old(self)@.request(app_id@, placement);
                    assert(self@.entries =~= m.entries);
                    assert(self@.pending =~= m.pending);
                }
                true
            },
            None => {
                match find_pending(&self.pending, app_id) {
                    Some(j) => {
                        self.pending[j].placement = placement;
                        proof {
                            lemma_pending_pos(old(self)@.pending, app_id@);
                        }
                    },
                    None => {
                        self.pending.push(PendingPlacement { app_id: app_id.to_owned(), placement });
                    },
                }
                proof {
                    let m = old(self)@.request(app_id@, placement);
                    assert(self@.entries =~= m.entries);
                    assert(self@.pending =~= m.pending);
                }
                false
            },
        }
    }

    /// A placement is reserved for the application.
    pub fn has_pending(&self, app_id: &str) -> (b: bool)
        ensures
            b == self@.has_pending(app_id@),
    {
        find_pending(&self.pending, app_id).is_some()
    }

    /// A surface of the application `app_id` has appeared. If a placement
    /// is reserved for it, the surface is claimed: the reservation becomes
    /// an entry, and the result is the placement whose size the client is
    /// to be configured with; the surface must then not be mapped as a
    /// window. Else nothing changes.
    pub fn try_claim(&mut self, app_id: &str, surface: SurfaceId) -> (claimed: Option<
        EmbeddedPlacement,
    >)
        requires
            old(self).wf(),
        ensures
            final(self).wf(),
            final(self)@ == old(self)@.claim(app_id@, surface),
            claimed == (match pending_pos(old(self)@.pending, app_id@) {
                Some(j) => Some(old(self)@.pending[j].1),
                None => None,
            }),
    {
        proof {
            lemma_ops_wf(self@, app_id@, EmbeddedPlacement { x: 0, y: 0, w: 0, h: 0 }, surface, false);
        }
        match find_pending(&self.pending, app_id) {
            Some(j) => {
                let reserved = self.pending.remove(j);
                assert(reserved@ == old(self)@.pending[j as int]);
                self.entries.push(
                    EmbeddedEntry {
                        app_id: app_id.to_owned(),
                        surface,
                        placement: reserved.placement,
                        has_texture: false,
                        commit_counter: 0,
                        mapped: false,
                    },
                );
                proof {
                    let m = old(self)@.claim(app_id@, surface);
                    assert(self@.entries =~= m.entries);
                    assert(self@.pending =~= m.pending);
                }
                Some(reserved.placement)
            },
            None => None,
        }
    }

    /// A surface has committed. If it is embedded and a texture came with
    /// the commit, its entry is mapped and its commit counter moves on; the
    /// result is the entry's position, for which the texture is to be kept
    /// and read back.
    pub fn on_commit(&mut self, surface: SurfaceId, texture_ready: bool) -> (r: Option<usize>)
        requires
            old(self).wf(),
        ensures
            final(self).wf(),
            final(self)@ == old(self)@.commit(surface, texture_ready),
            r == (match surface_pos(old(self)@.entries, surface) {
                Some(i) => if texture_ready {
                    Some(i as usize)
                } else {
                    None
                },
                None => None,
            }),
    {
        proof {
            lemma_ops_wf(self@, Seq::empty(), EmbeddedPlacement { x: 0, y: 0, w: 0, h: 0 }, surface, texture_ready);
        }
        match find_surface(&self.entries, surface) {
            Some(i) => {
                if !texture_ready {
                    return None;
                }
                let c: u32 = self.entries[i].commit_counter;
                self.entries[i].has_texture = true;
                self.entries[i].commit_counter = if c == u32::MAX { 0 } else { c + 1 };
                self.entries[i].mapped = true;
                proof {
                    let m = old(self)@.commit(surface, texture_ready);
                    assert(self@.entries =~= m.entries);
                    assert(self@.pending =~= m.pending);
                }
                Some(i)
            },
            None => None,
        }
    }

    /// Change the placement of an application.
    pub fn update_placement(&mut self, app_id: &str, placement: EmbeddedPlacement) -> (r:
        PlacementUpdate)
        requires
            old(self).wf(),
        ensures
            final(self).wf(),
            final(self)@ == old(self)@.update(app_id@, placement),
            r == (if old(self)@.has_entry(app_id@) {
                PlacementUpdate::Configure
            } else if old(self)@.has_pending(app_id@) {
                PlacementUpdate::Reserved
            } else {
                PlacementUpdate::Unknown
            }),
    {
        proof {
            lemma_ops_wf(self@, app_id@, placement, 0, false);
        }
        match find_entry(&self.entries, app_id) {
            Some(i) => {
                self.entries[i].placement = placement;
                proof {
                    let m = old(self)@.update(app_id@, placement);
                    assert(self@.entries =~= m.entries);
                    assert(self@.pending =~= m.pending);
                }
                PlacementUpdate::Configure
            },
            None => match find_pending(&self.pending, app_id) {
                Some(j) => {
                    self.pending[j].placement = placement;
                    proof {
                        lemma_pending_pos(old(self)@.pending, app_id@);
                        let m = old(self)@.update(app_id@, placement);
                        assert(self@.entries =~= m.entries);
                        assert(self@.pending =~= m.pending);
                    }
                    PlacementUpdate::Reserved
                },
                None => PlacementUpdate::Unknown,
            },
        }
    }

    /// Drop the application's entry and reservation. Returns true if it had
    /// an entry.
    pub fn remove(&mut self, app_id: &str) -> (had_entry: bool)
        requires
            old(self).wf(),
        ensures
            final(self).wf(),
            final(self)@ == old(self)@.remove(app_id@),
            had_entry == old(self)@.has_entry(app_id@),
            !final(self)@.has_entry(app_id@),
            !final(self)@.has_pending(app_id@),
    {
        proof {
            lemma_ops_wf(self@, app_id@, EmbeddedPlacement { x: 0, y: 0, w: 0, h: 0 }, 0, false);
        }
        let had_entry: bool = match find_entry(&self.entries, app_id) {
            Some(i) => {
                self.entries.remove(i);
                true
            },
            None => false,
        };
        match find_pending(&self.pending, app_id) {
            Some(j) => {
                self.pending.remove(j);
            },
            None => {},
        }
        proof {
            let m = old(self)@.remove(app_id@);
            assert(self@.entries =~= m.entries);
            assert(self@.pending =~= m.pending);
        }
        had_entry
    }

    /// A client surface was destroyed. If it was embedded, its entry is
    /// dropped; the result is the application it belonged to.
    pub fn surface_destroyed(&mut self, surface: SurfaceId) -> (app_id: Option<String>)
        requires
            old(self).wf(),
        ensures
            final(self).wf(),
            final(self)@ == old(self)@.surface_destroyed(surface),
            match surface_pos(old(self)@.entries, surface) {
                Some(i) => app_id matches Some(id) && id@ == old(self)@.entries[i].app_id,
                None => app_id is None,
            },
    {
        match find_surface(&self.entries, surface) {
            Some(i) => {
                let id = self.entries[i].app_id.clone();
                assert(id@ == old(self)@.entries[i as int].app_id);
                let _ = self.remove(id.as_str());
                Some(id)
            },
            None => None,
        }
    }

    /// The surface belongs to an embedded entry.
    pub fn is_embedded_surface(&self, surface: SurfaceId) -> (b: bool)
        ensures
            b == (surface_pos(self@.entries, surface) is Some),
    {
        find_surface(&self.entries, surface).is_some()
    }

    /// The state of every embedded window, for the control socket.
    pub fn window_statuses(&self) -> (out: Vec<WindowStatus>)
        ensures
            out.len() == self.entries.len(),
            forall|i: int|
                0 <= i < out.len() ==> {
                    &&& (#[trigger] out[i]).app_id@ == self@.entries[i].app_id
                    &&& out[i].x == self@.entries[i].placement.x
                    &&& out[i].y == self@.entries[i].placement.y
                    &&& out[i].w == self@.entries[i].placement.w
                    &&& out[i].h == self@.entries[i].placement.h
                    &&& out[i].mapped == self@.entries[i].mapped
                },
    {
        let mut out: Vec<WindowStatus> = Vec::new();
        let mut i: usize = 0;
        while i < self.entries.len()
            invariant
                i <= self.entries.len(),
                out.len() == i,
                forall|j: int|
                    0 <= j < i ==> {
                        &&& (#[trigger] out[j]).app_id@ == self@.entries[j].app_id
                        &&& out[j].x == self@.entries[j].placement.x
                        &&& out[j].y == self@.entries[j].placement.y
                        &&& out[j].w == self@.entries[j].placement.w
                        &&& out[j].h == self@.entries[j].placement.h
                        &&& out[j].mapped == self@.entries[j].mapped
                    },
            decreases self.entries.len() - i,
        {
            let e = &self.entries[i];
            assert(self@.entries[i as int] == e@);
            out.push(
                WindowStatus {
                    app_id: e.app_id.clone(),
                    x: e.placement.x,
                    y: e.placement.y,
                    w: e.placement.w,
                    h: e.placement.h,
                    mapped: e.mapped,
                },
            );
            i = i + 1;
        }
        out
    }

    /// An entry is drawn: it is mapped and has a texture.
    pub open spec fn drawn(e: EntryView) -> bool {
        e.mapped && e.has_texture
    }

    /// The render items of the first `k` entries: one for each entry that
    /// is mapped and has a texture, in entry order.
    pub open spec fn render_list(entries: Seq<EntryView>, k: nat) -> Seq<
        (Seq<char>, EmbeddedPlacement, u32),
    >
        decreases k,
    {
        if k == 0 || k > entries.len() {
            Seq::empty()
        } else {
            Self::render_list(entries, (k - 1) as nat) + if Self::drawn(entries[k - 1]) {
                seq![(entries[k - 1].app_id, entries[k - 1].placement, entries[k - 1].commit_counter)]
            } else {
                Seq::<(Seq<char>, EmbeddedPlacement, u32)>::empty()
            }
        }
    }

    /// One render item for each entry that is mapped and has a texture, in
    /// entry order: the texture goes to the entry's placement.
    pub fn render_elements(&self) -> (out: Vec<RenderItem>)
        ensures
            item_views(out@) == Self::render_list(self@.entries, self@.entries.len()),
    {
        let mut out: Vec<RenderItem> = Vec::new();
        let mut i: usize = 0;
        assert(item_views(out@) =~= Self::render_list(self@.entries, 0));
        while i < self.entries.len()
            invariant
                i <= self.entries.len(),
                item_views(out@) == Self::render_list(self@.entries, i as nat),
            decreases self.entries.len() - i,
        {
            let e = &self.entries[i];
            assert(self@.entries[i as int] == e@);
            let ghost before = item_views(out@);
            if e.mapped && e.has_texture {
                out.push(
                    RenderItem {
                        app_id: e.app_id.clone(),
                        placement: e.placement,
                        commit_counter: e.commit_counter,
                    },
                );
                assert(item_views(out@) =~= before + seq![
                    (e@.app_id, e@.placement, e@.commit_counter),
                ]);
            } else {
                assert(item_views(out@) =~= before + Seq::<
                    (Seq<char>, EmbeddedPlacement, u32),
                >::empty());
            }
            i = i + 1;
        }
        out
    }
}

/// The render items by application, placement and commit counter.
pub open spec fn item_views(items: Seq<RenderItem>) -> Seq<(Seq<char>, EmbeddedPlacement, u32)> {
    Seq::new(items.len(), |i: int| (items[i].app_id@, items[i].placement, items[i].commit_counter))
}

// ── placement of a pane ──────────────────────────────────────────────────────

/// The pixels inside the border of a pane that covers the cells `r`.
pub open spec fn pane_pixels(r: CellRect, cell_w: u32, cell_h: u32) -> EmbeddedPlacement {
    let inner = r.inset1();
    EmbeddedPlacement {
        x: (inner.x * cell_w) as i32,
        y: (inner.y * cell_h) as i32,
        w: (inner.width * cell_w) as i32,
        h: (inner.height * cell_h) as i32,
    }
}

/// Where the client of an embedded pane goes: the pane's cells less one
/// cell of border on every side, in pixels.
pub fn pane_placement(r: CellRect, cell_w: u32, cell_h: u32) -> (p: EmbeddedPlacement)
    requires
        cell_w <= MAX_CELL,
        cell_h <= MAX_CELL,
    ensures
        p == pane_pixels(r, cell_w, cell_h),
{
    let inner = r.inner1();
    assert(inner.x * cell_w <= 0xFFFF * 2048 && inner.y * cell_h <= 0xFFFF * 2048 && inner.width
        * cell_w <= 0xFFFF * 2048 && inner.height * cell_h <= 0xFFFF * 2048) by (nonlinear_arith)
        requires
            inner.x <= 0xFFFF,
            inner.y <= 0xFFFF,
            inner.width <= 0xFFFF,
            inner.height <= 0xFFFF,
            cell_w <= 2048,
            cell_h <= 2048,
    ;
    EmbeddedPlacement {
        x: (inner.x as u32 * cell_w) as i32,
        y: (inner.y as u32 * cell_h) as i32,
        w: (inner.width as u32 * cell_w) as i32,
        h: (inner.height as u32 * cell_h) as i32,
    }
}

/// The size that a new window is first configured with when its pane
/// covers the cells `r`: the pixels inside the pane's border, at least 80
/// by 24.
pub fn toplevel_size(r: CellRect, cell_w: u32, cell_h: u32) -> (s: (i32, i32))
    requires
        cell_w <= MAX_CELL,
        cell_h <= MAX_CELL,
    ensures
        s.0 == (if pane_pixels(r, cell_w, cell_h).w < 80 { 80 } else { pane_pixels(r, cell_w, cell_h).w }),
        s.1 == (if pane_pixels(r, cell_w, cell_h).h < 24 { 24 } else { pane_pixels(r, cell_w, cell_h).h }),
{
    let p = pane_placement(r, cell_w, cell_h);
    (if p.w < 80 { 80 } else { p.w }, if p.h < 24 { 24 } else { p.h })
}

// ── deferred claims ──────────────────────────────────────────────────────────

/// What to do with a new toplevel surface.
#[derive(Debug, Clone, Copy, PartialEq, Eq, Structural)]
pub enum ToplevelRoute {
    /// The surface was claimed: configure it with the placement's size and
    /// do not map it as a window.
    Claimed(EmbeddedPlacement),
    /// The surface is mapped as an ordinary window for now and watched: it
    /// may name its application later.
    Parked,
}

/// What a commit of a watched surface led to.
#[derive(Debug, Clone, Copy, PartialEq, Eq, Structural)]
pub enum ClaimRetry {
    /// The surface is not watched.
    NotParked,
    /// The surface has not named its application yet.
    Waiting,
    /// The surface was claimed: unmap its window and configure it with the
    /// placement's size.
    Claimed(EmbeddedPlacement),
    /// The surface belongs to an ordinary window and is watched no longer.
    Ordinary,
}

/// `s` without every occurrence of `surface`.
pub open spec fn without_surface(s: Seq<SurfaceId>, surface: SurfaceId) -> Seq<SurfaceId>
    decreases s.len(),
{
    if s.len() == 0 {
        s
    } else if s.last() == surface {
        without_surface(s.drop_last(), surface)
    } else {
        without_surface(s.drop_last(), surface).push(s.last())
    }
}

/// The toplevel surfaces that were mapped as windows before they named
/// their application.
pub struct UnclaimedToplevels {
    pub parked: Vec<SurfaceId>,
}

impl UnclaimedToplevels {
    pub fn new() -> (u: UnclaimedToplevels)
        ensures
            u.parked@.len() == 0,
    {
        UnclaimedToplevels { parked: Vec::new() }
    }

    pub fn contains(&self, surface: SurfaceId) -> (b: bool)
        ensures
            b == self.parked@.contains(surface),
    {
        let mut i: usize = 0;
        while i < self.parked.len()
            invariant
                i <= self.parked.len(),
                forall|j: int| 0 <= j < i ==> self.parked@[j] != surface,
            decreases self.parked.len() - i,
        {
            if self.parked[i] == surface {
                return true;
            }
            i = i + 1;
        }
        false
    }

    /// Watch the surface no longer.
    pub fn forget(&mut self, surface: SurfaceId)
        ensures
            final(self).parked@ == without_surface(old(self).parked@, surface),
    {
        let mut kept: Vec<SurfaceId> = Vec::new();
        let mut i: usize = 0;
        while i < self.parked.len()
            invariant
                i <= self.parked.len(),
                self.parked@ == old(self).parked@,
                kept@ == without_surface(self.parked@.subrange(0, i as int), surface),
            decreases self.parked.len() - i,
        {
            proof {
                assert(self.parked@.subrange(0, i + 1).drop_last() =~= self.parked@.subrange(
                    0,
                    i as int,
                ));
            }
            if self.parked[i] != surface {
                kept.push(self.parked[i]);
            }
            i = i + 1;
        }
        proof {
            assert(self.parked@.subrange(0, self.parked.len() as int) =~= self.parked@);
        }
        self.parked = kept;
    }

    /// A toplevel surface appears and names the application `app_id`,
    /// which may be empty. It is claimed at once if a placement is reserved
    /// for the application; else it is watched.
    pub fn new_toplevel(&mut self, manager: &mut EmbeddedManager, app_id: &str, surface: SurfaceId) -> (r:
        ToplevelRoute)
        requires
            old(manager).wf(),
        ensures
            final(manager).wf(),
            match pending_pos(old(manager)@.pending, app_id@) {
                Some(j) => if app_id@.len() > 0 {
                    &&& r == ToplevelRoute::Claimed(old(manager)@.pending[j].1)
                    &&& final(manager)@ == old(manager)@.claim(app_id@, surface)
                    &&& final(self).parked@ == old(self).parked@
                } else {
                    &&& r == ToplevelRoute::Parked
                    &&& final(manager)@ == old(manager)@
                    &&& final(self).parked@ == old(self).parked@.push(surface)
                },
                None => {
                    &&& r == ToplevelRoute::Parked
                    &&& final(manager)@ == old(manager)@
                    &&& final(self).parked@ == old(self).parked@.push(surface)
                },
            },
    {
        if app_id.unicode_len() > 0 {
            match manager.try_claim(app_id, surface) {
                Some(p) => {
                    return ToplevelRoute::Claimed(p);
                },
                None => {},
            }
        }
        self.parked.push(surface);
        ToplevelRoute::Parked
    }

    /// A surface commits and names the application `app_id`, which may
    /// still be empty. A watched surface whose application has a placement
    /// reserved is claimed now; one whose application has none is an
    /// ordinary window for good.
    pub fn commit(&mut self, manager: &mut EmbeddedManager, app_id: &str, surface: SurfaceId) -> (r:
        ClaimRetry)
        requires
            old(manager).wf(),
        ensures
            final(manager).wf(),
            r == (if !old(self).parked@.contains(surface) {
                ClaimRetry::NotParked
            } else if app_id@.len() == 0 {
                ClaimRetry::Waiting
            } else {
                match pending_pos(old(manager)@.pending, app_id@) {
                    Some(j) => ClaimRetry::Claimed(old(manager)@.pending[j].1),
                    None => ClaimRetry::Ordinary,
                }
            }),
            final(manager)@ == (if r is Claimed {
                old(manager)@.claim(app_id@, surface)
            } else {
                old(manager)@
            }),
            final(self).parked@ == (if r is Claimed || r is Ordinary {
                without_surface(old(self).parked@, surface)
            } else {
                old(self).parked@
            }),
    {
        if !self.contains(surface) {
            return ClaimRetry::NotParked;
        }
        if app_id.unicode_len() == 0 {
            return ClaimRetry::Waiting;
        }
        self.forget(surface);
        match manager.try_claim(app_id, surface) {
            Some(p) => ClaimRetry::Claimed(p),
            None => ClaimRetry::Ordinary,
        }
    }
}

} // verus!

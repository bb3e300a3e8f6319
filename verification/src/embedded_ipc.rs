//! The control plane of embedded windows: commands, responses, the queue
//! between the socket and the render tick, and what each command does.

use crate::embedded::{
    entry_pos, lemma_entry_pos, EmbeddedManager, EmbeddedPlacement, ManagerView, SurfaceId,
    WindowStatus,
};
use crate::text::push_chars;
use crate::twm::TwmState;
use crate::twm_model::TwmView;
use vstd::prelude::*;

verus! {

/// A command for the embedded-window manager.
#[derive(Debug, Clone)]
pub enum EmbedCommand {
    /// Launch an application and reserve its place.
    Spawn { app_id: String, args: Vec<String>, x: i32, y: i32, w: i32, h: i32 },
    /// Move or resize an embedded surface.
    Move { app_id: String, x: i32, y: i32, w: i32, h: i32 },
    /// Give an embedded surface the keyboard focus.
    Focus { app_id: String },
    /// Close an embedded surface.
    Close { app_id: String },
    /// Report the embedded surfaces.
    List,
}

/// The answer to a command.
#[derive(Debug, Clone)]
pub enum EmbedResponse {
    Windows { ok: bool, windows: Vec<WindowStatus> },
    Error { ok: bool, error: String },
}

impl EmbedResponse {
    pub fn ok(windows: Vec<WindowStatus>) -> (r: EmbedResponse)
        ensures
            r == (EmbedResponse::Windows { ok: true, windows }),
    {
        EmbedResponse::Windows { ok: true, windows }
    }

    pub fn err(msg: &str) -> (r: EmbedResponse)
        ensures
            r matches EmbedResponse::Error { ok, error } && !ok && error@ == msg@,
    {
        EmbedResponse::Error { ok: false, error: msg.to_owned() }
    }
}

/// The command that launches `app_id` with `args` into the given pixels.
pub fn spawn_embedded(app_id: &str, args: &[String], x: i32, y: i32, w: i32, h: i32) -> (c:
    EmbedCommand)
    ensures
        c matches EmbedCommand::Spawn { app_id: a, args: g, x: cx, y: cy, w: cw, h: ch } && a@
            == app_id@ && g@.len() == args@.len() && (forall|i: int|
            0 <= i < g@.len() ==> (#[trigger] g@[i])@ == args@[i]@) && cx == x && cy == y && cw == w
            && ch == h,
{
    let mut copy: Vec<String> = Vec::new();
    let mut i: usize = 0;
    while i < args.len()
        invariant
            i <= args.len(),
            copy@.len() == i,
            forall|j: int| 0 <= j < i ==> (#[trigger] copy@[j])@ == args@[j]@,
        decreases args.len() - i,
    {
        copy.push(args[i].clone());
        i = i + 1;
    }
    EmbedCommand::Spawn { app_id: app_id.to_owned(), args: copy, x, y, w, h }
}

/// The command that moves the surface of `app_id` to the given pixels.
pub fn move_embedded(app_id: &str, x: i32, y: i32, w: i32, h: i32) -> (c: EmbedCommand)
    ensures
        c matches EmbedCommand::Move { app_id: a, x: cx, y: cy, w: cw, h: ch } && a@ == app_id@
            && cx == x && cy == y && cw == w && ch == h,
{
    EmbedCommand::Move { app_id: app_id.to_owned(), x, y, w, h }
}

/// Text of the error for a request that does not parse: `detail` is what
/// the parser said.
pub open spec fn parse_error_text(detail: Seq<char>) -> Seq<char> {
    "parse error: "@ + detail
}

/// The commands that wait for the next render tick, and the window list
/// that requests are answered from.
pub struct EmbedIpcServer {
    pub pending: Vec<EmbedCommand>,
    pub windows: Vec<WindowStatus>,
}

fn copy_statuses(windows: &Vec<WindowStatus>) -> (out: Vec<WindowStatus>)
    ensures
        out@.len() == windows@.len(),
        forall|i: int|
            0 <= i < out@.len() ==> {
                &&& (#[trigger] out@[i]).app_id@ == windows@[i].app_id@
                &&& out@[i].x == windows@[i].x
                &&& out@[i].y == windows@[i].y
                &&& out@[i].w == windows@[i].w
                &&& out@[i].h == windows@[i].h
                &&& out@[i].mapped == windows@[i].mapped
            },
{
    let mut out: Vec<WindowStatus> = Vec::new();
    let mut i: usize = 0;
    while i < windows.len()
        invariant
            i <= windows.len(),
            out@.len() == i,
            forall|j: int|
                0 <= j < i ==> {
                    &&& (#[trigger] out@[j]).app_id@ == windows@[j].app_id@
                    &&& out@[j].x == windows@[j].x
                    &&& out@[j].y == windows@[j].y
                    &&& out@[j].w == windows@[j].w
                    &&& out@[j].h == windows@[j].h
                    &&& out@[j].mapped == windows@[j].mapped
                },
        decreases windows.len() - i,
    {
        let w = &windows[i];
        out.push(
            WindowStatus { app_id: w.app_id.clone(), x: w.x, y: w.y, w: w.w, h: w.h, mapped: w.mapped },
        );
        i = i + 1;
    }
    out
}

impl EmbedIpcServer {
    pub fn new() -> (s: EmbedIpcServer)
        ensures
            s.pending@.len() == 0,
            s.windows@.len() == 0,
    {
        EmbedIpcServer { pending: Vec::new(), windows: Vec::new() }
    }

    /// Answer one request. A request that did not parse is answered with
    /// the error and touches nothing. Any command is answered with the
    /// window list as it is now; every command but `List` then waits for
    /// the next render tick.
    pub fn receive(&mut self, request: Result<EmbedCommand, String>) -> (r: EmbedResponse)
        ensures
            final(self).windows == old(self).windows,
            match request {
                Ok(cmd) => {
                    &&& r matches EmbedResponse::Windows { ok, windows } && ok && windows@.len() == old(
                        self,
                    ).windows@.len() && forall|i: int|
                        0 <= i < windows@.len() ==> {
                            &&& (#[trigger] windows@[i]).app_id@ == old(self).windows@[i].app_id@
                            &&& windows@[i].x == old(self).windows@[i].x
                            &&& windows@[i].y == old(self).windows@[i].y
                            &&& windows@[i].w == old(self).windows@[i].w
                            &&& windows@[i].h == old(self).windows@[i].h
                            &&& windows@[i].mapped == old(self).windows@[i].mapped
                        }
                    &&& final(self).pending@ == (if cmd is List {
                        old(self).pending@
                    } else {
                        old(self).pending@.push(cmd)
                    })
                },
                Err(detail) => {
                    &&& r matches EmbedResponse::Error { ok, error } && !ok && error@
                        == parse_error_text(detail@)
                    &&& final(self).pending@ == old(self).pending@
                },
            },
    {
        match request {
            Err(detail) => {
                let mut text = String::new();
                push_chars(&mut text, "parse error: ");
                push_chars(&mut text, detail.as_str());
                assert(text@ =~= parse_error_text(detail@));
                EmbedResponse::Error { ok: false, error: text }
            },
            Ok(cmd) => {
                let windows = copy_statuses(&self.windows);
                match cmd {
                    EmbedCommand::List => {},
                    other => {
                        self.pending.push(other);
                    },
                }
                EmbedResponse::ok(windows)
            },
        }
    }

    /// Hand over the commands that wait, in the order in which they came.
    pub fn drain(&mut self) -> (cmds: Vec<EmbedCommand>)
        ensures
            cmds@ == old(self).pending@,
            final(self).pending@.len() == 0,
            final(self).windows == old(self).windows,
    {
        let mut cmds: Vec<EmbedCommand> = Vec::new();
        cmds.append(&mut self.pending);
        assert(cmds@ =~= old(self).pending@);
        cmds
    }

    /// Replace the window list that requests are answered from.
    pub fn update_windows(&mut self, windows: Vec<WindowStatus>)
        ensures
            final(self).windows == windows,
            final(self).pending == old(self).pending,
    {
        self.windows = windows;
    }
}

/// What the compositor does after a command was applied to its state.
#[derive(Debug, Clone, Copy, PartialEq, Eq, Structural)]
pub enum EmbedEffect {
    /// Start the application's process.
    Launch,
    /// Configure the client with this size.
    Configure(i32, i32),
    /// Give the surface the keyboard focus.
    Focus(SurfaceId),
    /// Ask the client of the surface to close.
    CloseClient(SurfaceId),
    Nothing,
}

/// The surface of the application's entry, if it has one.
pub open spec fn surface_of(m: ManagerView, id: Seq<char>) -> Option<SurfaceId> {
    match entry_pos(m.entries, id) {
        Some(i) => Some(m.entries[i].surface),
        None => None,
    }
}

fn entry_surface(manager: &EmbeddedManager, app_id: &str) -> (s: Option<SurfaceId>)
    ensures
        s == surface_of(manager@, app_id@),
{
    let mut i: usize = 0;
    while i < manager.entries.len()
        invariant
            i <= manager.entries.len(),
            forall|j: int| 0 <= j < i ==> (#[trigger] manager@.entries[j]).app_id != app_id@,
        decreases manager.entries.len() - i,
    {
        if crate::text::str_eq(manager.entries[i].app_id.as_str(), app_id) {
            proof {
                lemma_entry_pos(manager@.entries, app_id@);
                assert(manager@.entries[i as int].app_id == app_id@);
            }
            return Some(manager.entries[i].surface);
        }
        i = i + 1;
    }
    proof {
        lemma_entry_pos(manager@.entries, app_id@);
    }
    None
}

/// The managers' state after a command.
pub open spec fn after_command(m: ManagerView, t: TwmView, cmd: EmbedCommand) -> (ManagerView, TwmView) {
    match cmd {
        EmbedCommand::Spawn { app_id, args, x, y, w, h } => (
            m.request(app_id@, EmbeddedPlacement { x, y, w, h }),
            t.assign_embedded(app_id@),
        ),
        EmbedCommand::Move { app_id, x, y, w, h } => (
            m.update(app_id@, EmbeddedPlacement { x, y, w, h }),
            t,
        ),
        EmbedCommand::Focus { app_id } => (m, t),
        EmbedCommand::Close { app_id } => (m.remove(app_id@), t.close_by_label(app_id@)),
        EmbedCommand::List => (m, t),
    }
}

/// What the compositor does after a command.
pub open spec fn effect_of(m: ManagerView, cmd: EmbedCommand) -> EmbedEffect {
    match cmd {
        EmbedCommand::Spawn { app_id, args, x, y, w, h } => EmbedEffect::Launch,
        EmbedCommand::Move { app_id, x, y, w, h } => if m.has_entry(app_id@) {
            EmbedEffect::Configure(w, h)
        } else {
            EmbedEffect::Nothing
        },
        EmbedCommand::Focus { app_id } => match surface_of(m, app_id@) {
            Some(s) => EmbedEffect::Focus(s),
            None => EmbedEffect::Nothing,
        },
        EmbedCommand::Close { app_id } => match surface_of(m, app_id@) {
            Some(s) => EmbedEffect::CloseClient(s),
            None => EmbedEffect::Nothing,
        },
        EmbedCommand::List => EmbedEffect::Nothing,
    }
}

/// Apply one queued command. `Spawn` reserves the placement and gives the
/// application a pane; `Move` changes the placement; `Focus` changes
/// nothing here; `Close` drops the application's entry and reservation and
/// closes its pane, and a client that was connected is asked to close.
pub fn handle_embed_command(manager: &mut EmbeddedManager, twm: &mut TwmState, cmd: &EmbedCommand) -> (e:
    EmbedEffect)
    requires
        old(manager).wf(),
        old(twm).wf(),
        cmd is Spawn ==> old(twm).next_id < u32::MAX,
    ensures
        final(manager).wf(),
        final(twm).wf(),
        (final(manager)@, final(twm)@) == after_command(old(manager)@, old(twm)@, *cmd),
        e == effect_of(old(manager)@, *cmd),
{
    match cmd {
        EmbedCommand::Spawn { app_id, args, x, y, w, h } => {
            let _ = manager.request_placement(
                app_id.as_str(),
                EmbeddedPlacement { x: *x, y: *y, w: *w, h: *h },
            );
            let _ = twm.assign_embedded(app_id.as_str());
            EmbedEffect::Launch
        },
        EmbedCommand::Move { app_id, x, y, w, h } => {
            match manager.update_placement(
                app_id.as_str(),
                EmbeddedPlacement { x: *x, y: *y, w: *w, h: *h },
            ) {
                crate::embedded::PlacementUpdate::Configure => EmbedEffect::Configure(*w, *h),
                _ => EmbedEffect::Nothing,
            }
        },
        EmbedCommand::Focus { app_id } => match entry_surface(manager, app_id.as_str()) {
            Some(s) => EmbedEffect::Focus(s),
            None => EmbedEffect::Nothing,
        },
        EmbedCommand::Close { app_id } => {
            let effect = match entry_surface(manager, app_id.as_str()) {
                Some(s) => EmbedEffect::CloseClient(s),
                None => EmbedEffect::Nothing,
            };
            let _ = manager.remove(app_id.as_str());
            twm.close_pane_by_app_id(app_id.as_str());
            effect
        },
        EmbedCommand::List => EmbedEffect::Nothing,
    }
}

// ── laws ─────────────────────────────────────────────────────────────────────

/// After `Close` the application has neither an entry nor a reservation,
/// whatever it had before.
pub proof fn law_close_leaves_nothing(m: ManagerView, t: TwmView, cmd: EmbedCommand)
    requires
        m.wf(),
        cmd is Close,
    ensures
        !after_command(m, t, cmd).0.has_entry(cmd->Close_app_id@),
        !after_command(m, t, cmd).0.has_pending(cmd->Close_app_id@),
        after_command(m, t, cmd).0.wf(),
{
    crate::embedded::lemma_ops_wf(
        m,
        cmd->Close_app_id@,
        EmbeddedPlacement { x: 0, y: 0, w: 0, h: 0 },
        0,
        false,
    );
}

/// `Spawn`, then the claim by a surface of the application, then `Close`:
/// the claim turns the reservation into an entry, and `Close` leaves
/// neither an entry nor a reservation.
pub proof fn law_spawn_close(
    m: ManagerView,
    t: TwmView,
    spawn: EmbedCommand,
    close: EmbedCommand,
    surface: SurfaceId,
)
    requires
        m.wf(),
        spawn is Spawn,
        close is Close,
        close->Close_app_id@ == spawn->Spawn_app_id@,
        !m.has_entry(spawn->Spawn_app_id@),
    ensures
        ({
            let id = spawn->Spawn_app_id@;
            let asked = after_command(m, t, spawn);
            let claimed = asked.0.claim(id, surface);
            let closed = after_command(claimed, asked.1, close);
            &&& asked.0.has_pending(id)
            &&& claimed.has_entry(id)
            &&& !claimed.has_pending(id)
            &&& !closed.0.has_entry(id)
            &&& !closed.0.has_pending(id)
        }),
{
    let id = spawn->Spawn_app_id@;
    let p = EmbeddedPlacement { x: spawn->Spawn_x, y: spawn->Spawn_y, w: spawn->Spawn_w, h: spawn->Spawn_h };
    crate::embedded::law_claimed_after_request(m, id, p, surface);
    let asked = after_command(m, t, spawn);
    assert(asked.0 == m.request(id, p));
    let claimed = asked.0.claim(id, surface);
    crate::embedded::lemma_ops_wf(m, id, p, surface, false);
    crate::embedded::lemma_ops_wf(asked.0, id, p, surface, false);
    law_close_leaves_nothing(claimed, asked.1, close);
}

} // verus!

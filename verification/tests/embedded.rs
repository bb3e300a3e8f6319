use trixie::embedded::{
    pane_placement, toplevel_size, ClaimRetry, EmbeddedConfig, EmbeddedManager, EmbeddedPlacement,
    PlacementUpdate, ToplevelRoute, UnclaimedToplevels,
};
use trixie::embedded_ipc::{
    handle_embed_command, move_embedded, spawn_embedded, EmbedCommand, EmbedEffect,
    EmbedIpcServer, EmbedResponse,
};
use trixie::geometry::CellRect;
use trixie::twm::TwmState;

fn place(x: i32, y: i32, w: i32, h: i32) -> EmbeddedPlacement {
    EmbeddedPlacement { x, y, w, h }
}

fn has_entry(m: &EmbeddedManager, id: &str) -> bool {
    m.entries.iter().any(|e| e.app_id == id)
}

#[test]
fn claim_at_once() {
    let mut m = EmbeddedManager::new();
    let mut parked = UnclaimedToplevels::new();
    assert!(!m.request_placement("firefox", place(0, 0, 1920, 1080)));
    assert!(m.has_pending("firefox"));
    let r = parked.new_toplevel(&mut m, "firefox", 7);
    assert_eq!(r, ToplevelRoute::Claimed(place(0, 0, 1920, 1080)));
    assert!(parked.parked.is_empty());
    assert!(!m.has_pending("firefox"));
    assert_eq!(m.entries.len(), 1);
    let e = &m.entries[0];
    assert_eq!((e.app_id.as_str(), e.surface, e.placement), ("firefox", 7, place(0, 0, 1920, 1080)));
    assert!(!e.mapped && !e.has_texture && e.commit_counter == 0);
    assert_eq!(e.placement.logical_size(), (1920, 1080));
    assert!(m.is_embedded_surface(7));
    assert!(!m.is_embedded_surface(8));
}

#[test]
fn claim_deferred_to_the_first_commit() {
    let mut m = EmbeddedManager::new();
    let mut parked = UnclaimedToplevels::new();
    m.request_placement("firefox", place(0, 0, 1920, 1080));
    // the client has not named itself yet
    assert_eq!(parked.new_toplevel(&mut m, "", 7), ToplevelRoute::Parked);
    assert!(parked.contains(7));
    assert!(m.has_pending("firefox"));
    assert_eq!(parked.commit(&mut m, "", 7), ClaimRetry::Waiting);
    assert_eq!(parked.commit(&mut m, "firefox", 9), ClaimRetry::NotParked);
    assert_eq!(
        parked.commit(&mut m, "firefox", 7),
        ClaimRetry::Claimed(place(0, 0, 1920, 1080))
    );
    assert!(!parked.contains(7));
    assert!(has_entry(&m, "firefox") && !m.has_pending("firefox"));
    assert_eq!(parked.commit(&mut m, "firefox", 7), ClaimRetry::NotParked);
    // an application without reservation is an ordinary window for good
    assert_eq!(parked.new_toplevel(&mut m, "foot", 8), ToplevelRoute::Parked);
    assert_eq!(parked.commit(&mut m, "foot", 8), ClaimRetry::Ordinary);
    assert!(!parked.contains(8));
    parked.new_toplevel(&mut m, "", 10);
    parked.forget(10);
    assert!(parked.parked.is_empty());
}

#[test]
fn claim_without_reservation_changes_nothing() {
    let mut m = EmbeddedManager::new();
    assert_eq!(m.try_claim("firefox", 1), None);
    assert!(m.entries.is_empty() && m.pending.is_empty());
}

#[test]
fn placement_goes_to_the_entry_or_the_reservation() {
    let mut m = EmbeddedManager::new();
    assert_eq!(m.update_placement("a", place(1, 1, 1, 1)), PlacementUpdate::Unknown);
    m.request_placement("a", place(0, 0, 10, 10));
    m.request_placement("a", place(0, 0, 20, 20));
    assert_eq!(m.pending.len(), 1);
    assert_eq!(m.update_placement("a", place(5, 5, 30, 30)), PlacementUpdate::Reserved);
    assert_eq!(m.try_claim("a", 1), Some(place(5, 5, 30, 30)));
    assert_eq!(m.update_placement("a", place(6, 6, 40, 40)), PlacementUpdate::Configure);
    // a placement asked for while connected goes to the entry, not to a new reservation
    assert!(m.request_placement("a", place(7, 7, 50, 50)));
    assert!(!m.has_pending("a"));
    assert_eq!(m.entries[0].placement, place(7, 7, 50, 50));
}

#[test]
fn commit_maps_the_entry() {
    let mut m = EmbeddedManager::new();
    m.request_placement("a", place(0, 0, 10, 10));
    m.request_placement("b", place(10, 0, 10, 10));
    m.try_claim("a", 1);
    m.try_claim("b", 2);
    assert!(m.render_elements().is_empty());
    assert_eq!(m.on_commit(3, true), None);
    assert_eq!(m.on_commit(2, false), None);
    assert!(!m.entries[1].mapped);
    assert_eq!(m.on_commit(2, true), Some(1));
    assert_eq!(m.on_commit(2, true), Some(1));
    assert!(m.entries[1].mapped && m.entries[1].has_texture);
    assert_eq!(m.entries[1].commit_counter, 2);
    let items = m.render_elements();
    assert_eq!(items.len(), 1);
    assert_eq!(
        (items[0].app_id.as_str(), items[0].placement, items[0].commit_counter),
        ("b", place(10, 0, 10, 10), 2)
    );
    let st = m.window_statuses();
    assert_eq!(st.len(), 2);
    assert_eq!((st[0].app_id.as_str(), st[0].w, st[0].mapped), ("a", 10, false));
    assert_eq!((st[1].app_id.as_str(), st[1].x, st[1].mapped), ("b", 10, true));
    m.entries[1].commit_counter = u32::MAX;
    m.on_commit(2, true);
    assert_eq!(m.entries[1].commit_counter, 0);
}

#[test]
fn spawn_then_close_leaves_nothing() {
    let mut m = EmbeddedManager::new();
    m.request_placement("firefox", place(0, 0, 100, 100));
    m.try_claim("firefox", 5);
    assert_eq!(m.surface_destroyed(6), None);
    assert_eq!(m.surface_destroyed(5), Some("firefox".to_string()));
    assert!(!has_entry(&m, "firefox") && !m.has_pending("firefox"));
    // remove drops a reservation as well
    m.request_placement("mpv", place(0, 0, 1, 1));
    assert!(!m.remove("mpv"));
    assert!(!m.has_pending("mpv"));
    // the same by commands: spawn, claim, close
    let mut t = TwmState::new(80, 24, 0);
    let spawn = spawn_embedded("firefox", &[], 0, 0, 1920, 1080);
    assert_eq!(handle_embed_command(&mut m, &mut t, &spawn), EmbedEffect::Launch);
    assert_eq!(m.try_claim("firefox", 9), Some(place(0, 0, 1920, 1080)));
    assert!(has_entry(&m, "firefox") && !m.has_pending("firefox"));
    let other = spawn_embedded("mpv", &[], 0, 0, 10, 10);
    handle_embed_command(&mut m, &mut t, &other);
    let close = EmbedCommand::Close { app_id: "firefox".into() };
    assert_eq!(handle_embed_command(&mut m, &mut t, &close), EmbedEffect::CloseClient(9));
    assert!(!has_entry(&m, "firefox") && !m.has_pending("firefox"));
    // the other application keeps its reservation and its pane
    assert!(m.has_pending("mpv"));
    assert!(t.panes.iter().all(|p| p.content.label() != "firefox"));
    assert!(t.panes.iter().any(|p| p.content.label() == "mpv"));
}

#[test]
fn pane_pixels_are_inside_the_border() {
    let r = CellRect { x: 2, y: 3, width: 40, height: 20 };
    assert_eq!(pane_placement(r, 8, 16), place(24, 64, 304, 288));
    assert_eq!(toplevel_size(r, 8, 16), (304, 288));
    let tiny = CellRect { x: 2, y: 3, width: 1, height: 20 };
    assert_eq!(pane_placement(tiny, 8, 16), place(0, 0, 0, 0));
    assert_eq!(toplevel_size(tiny, 8, 16), (80, 24));
    let c = EmbeddedConfig { app_id: "a".into(), x: 1, y: 2, w: 3, h: 4 };
    assert_eq!(c.placement(), place(1, 2, 3, 4));
}

#[test]
fn requests_are_answered_from_the_snapshot() {
    let mut server = EmbedIpcServer::new();
    let mut m = EmbeddedManager::new();
    m.request_placement("a", place(1, 2, 3, 4));
    m.try_claim("a", 1);
    server.update_windows(m.window_statuses());
    let r = server.receive(Err("expected value at line 1 column 1".to_string()));
    assert!(matches!(r, EmbedResponse::Error { ok: false, ref error }
        if error == "parse error: expected value at line 1 column 1"));
    assert!(server.pending.is_empty());
    let r = server.receive(Ok(EmbedCommand::List));
    assert!(matches!(r, EmbedResponse::Windows { ok: true, ref windows }
        if windows.len() == 1 && windows[0].app_id == "a" && windows[0].h == 4));
    assert!(server.pending.is_empty());
    let r = server.receive(Ok(move_embedded("a", 5, 6, 7, 8)));
    assert!(matches!(r, EmbedResponse::Windows { ok: true, ref windows } if windows[0].x == 1));
    server.receive(Ok(EmbedCommand::Focus { app_id: "a".into() }));
    let cmds = server.drain();
    assert_eq!(cmds.len(), 2);
    assert!(matches!(&cmds[0], EmbedCommand::Move { app_id, x: 5, y: 6, w: 7, h: 8 } if app_id == "a"));
    assert!(matches!(&cmds[1], EmbedCommand::Focus { .. }));
    assert!(server.drain().is_empty());
    assert!(matches!(EmbedResponse::ok(vec![]), EmbedResponse::Windows { ok: true, .. }));
    assert!(matches!(EmbedResponse::err("no"), EmbedResponse::Error { ok: false, ref error } if error == "no"));
}

#[test]
fn commands_change_manager_and_panes() {
    let mut m = EmbeddedManager::new();
    let mut t = TwmState::new(80, 24, 0);
    let spawn = spawn_embedded("firefox", &["--new".to_string()], 0, 0, 1920, 1080);
    assert!(matches!(&spawn, EmbedCommand::Spawn { app_id, args, w: 1920, .. }
        if app_id == "firefox" && args.len() == 1 && args[0] == "--new"));
    assert_eq!(handle_embed_command(&mut m, &mut t, &spawn), EmbedEffect::Launch);
    assert!(m.has_pending("firefox"));
    assert!(t.panes[0].content.is_embedded());
    // not connected yet: a move changes the reservation, focus and list do nothing
    let mv = move_embedded("firefox", 0, 0, 800, 600);
    assert_eq!(handle_embed_command(&mut m, &mut t, &mv), EmbedEffect::Nothing);
    let focus = EmbedCommand::Focus { app_id: "firefox".into() };
    assert_eq!(handle_embed_command(&mut m, &mut t, &focus), EmbedEffect::Nothing);
    assert_eq!(handle_embed_command(&mut m, &mut t, &EmbedCommand::List), EmbedEffect::Nothing);
    assert_eq!(m.try_claim("firefox", 3), Some(place(0, 0, 800, 600)));
    let mv = move_embedded("firefox", 0, 0, 400, 300);
    assert_eq!(handle_embed_command(&mut m, &mut t, &mv), EmbedEffect::Configure(400, 300));
    assert_eq!(handle_embed_command(&mut m, &mut t, &focus), EmbedEffect::Focus(3));
    // closing drops the entry at once and asks the client to close; the
    // destruction of its surface then finds nothing left to drop
    let close = EmbedCommand::Close { app_id: "firefox".into() };
    assert_eq!(handle_embed_command(&mut m, &mut t, &close), EmbedEffect::CloseClient(3));
    assert!(t.panes.is_empty());
    assert!(m.entries.is_empty());
    assert!(!m.has_pending("firefox"));
    assert_eq!(m.surface_destroyed(3), None);
    // a second close finds nothing and asks nobody
    assert_eq!(handle_embed_command(&mut m, &mut t, &close), EmbedEffect::Nothing);
    assert!(m.entries.is_empty() && m.pending.is_empty());
    // closing an application that never connected drops its reservation
    m.request_placement("mpv", place(0, 0, 1, 1));
    let close = EmbedCommand::Close { app_id: "mpv".into() };
    assert_eq!(handle_embed_command(&mut m, &mut t, &close), EmbedEffect::Nothing);
    assert!(!m.has_pending("mpv"));
}

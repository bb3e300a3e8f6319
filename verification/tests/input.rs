use trixie::config::{KeyAction, Keybind, MouseMode};
use trixie::input::{
    find_bind, key_decision, mods_match, mouse_mode_for, twm_action_for, vt_for_key,
    vt_from_keysym, KeyDecision, KeyPress, Mods,
};
use trixie::twm::Action;

fn mods(logo: bool, shift: bool, ctrl: bool, alt: bool) -> Mods {
    Mods { logo, shift, ctrl, alt }
}

fn press(name: &str) -> KeyPress {
    KeyPress { pressed: true, name: name.to_string(), modified: 0, base: 0 }
}

fn bind(mods: &[&str], key: &str, action: KeyAction) -> Keybind {
    Keybind { mods: mods.iter().map(|m| m.to_string()).collect(), key: key.to_string(), action }
}

#[test]
fn modifiers_must_match_exactly() {
    let req = vec!["super".to_string(), "shift".to_string()];
    assert!(mods_match(&mods(true, true, false, false), &req));
    assert!(!mods_match(&mods(true, false, false, false), &req));
    assert!(!mods_match(&mods(true, true, true, false), &req));
    assert!(!mods_match(&mods(true, true, false, true), &req));
    assert!(mods_match(&mods(false, false, false, false), &[]));
    assert!(!mods_match(&mods(true, false, false, false), &[]));
    let all = vec!["alt".to_string(), "ctrl".to_string(), "shift".to_string(), "super".to_string()];
    assert!(mods_match(&mods(true, true, true, true), &all));
    // Names are compared as they stand.
    assert!(!mods_match(&mods(true, false, false, false), &["Super".to_string()]));
}

#[test]
fn terminal_keys() {
    assert_eq!(vt_from_keysym(0x1008FE01), Some(1));
    assert_eq!(vt_from_keysym(0x1008FE0C), Some(12));
    assert_eq!(vt_from_keysym(0x1008FE00), None);
    assert_eq!(vt_from_keysym(0x1008FE0D), None);
    assert_eq!(vt_from_keysym(0), None);
    assert_eq!(vt_from_keysym(u32::MAX), None);
    assert_eq!(vt_for_key(0x1008FE03, 0xFFBE), Some(3));
    assert_eq!(vt_for_key(0x61, 0xFFBE), Some(1));
    assert_eq!(vt_for_key(0x61, 0xFFC9), Some(12));
    assert_eq!(vt_for_key(0x61, 0xFFCA), None);
    assert_eq!(vt_for_key(0x61, 0xFFBD), None);
}

#[test]
fn built_in_keys() {
    assert_eq!(twm_action_for("h", false), Some(Action::FocusLeft));
    assert_eq!(twm_action_for("left", false), Some(Action::FocusLeft));
    assert_eq!(twm_action_for("l", false), Some(Action::FocusRight));
    assert_eq!(twm_action_for("right", false), Some(Action::FocusRight));
    assert_eq!(twm_action_for("k", false), Some(Action::FocusUp));
    assert_eq!(twm_action_for("up", false), Some(Action::FocusUp));
    assert_eq!(twm_action_for("j", false), Some(Action::FocusDown));
    assert_eq!(twm_action_for("down", false), Some(Action::FocusDown));
    assert_eq!(twm_action_for("q", false), Some(Action::Close));
    assert_eq!(twm_action_for("space", false), Some(Action::NextLayout));
    assert_eq!(twm_action_for("b", false), Some(Action::ToggleBar));
    assert_eq!(twm_action_for("f", false), Some(Action::Fullscreen));
    assert_eq!(twm_action_for("equal", false), Some(Action::GrowMain));
    assert_eq!(twm_action_for("minus", false), Some(Action::ShrinkMain));
    for n in 1..=9u8 {
        let name = n.to_string();
        assert_eq!(twm_action_for(&name, false), Some(Action::Workspace(n)));
        assert_eq!(twm_action_for(&name, true), Some(Action::MoveToWorkspace(n)));
    }
    assert_eq!(twm_action_for("0", false), None);
    assert_eq!(twm_action_for("10", false), None);
    assert_eq!(twm_action_for("", false), None);
    assert_eq!(twm_action_for("H", false), None);
    assert_eq!(twm_action_for("h", true), Some(Action::MoveLeft));
    assert_eq!(twm_action_for("left", true), Some(Action::MoveLeft));
    assert_eq!(twm_action_for("l", true), Some(Action::MoveRight));
    assert_eq!(twm_action_for("right", true), Some(Action::MoveRight));
    assert_eq!(twm_action_for("k", true), None);
    assert_eq!(twm_action_for("q", true), None);
    assert_eq!(twm_action_for("0", true), None);
}

#[test]
fn mouse_mode_keys() {
    assert_eq!(mouse_mode_for("i", MouseMode::Normal), Some(MouseMode::Insert));
    assert_eq!(mouse_mode_for("i", MouseMode::Insert), None);
    assert_eq!(mouse_mode_for("escape", MouseMode::Insert), Some(MouseMode::Normal));
    assert_eq!(mouse_mode_for("bracketleft", MouseMode::Insert), Some(MouseMode::Normal));
    assert_eq!(mouse_mode_for("escape", MouseMode::Normal), None);
    assert_eq!(mouse_mode_for("x", MouseMode::Normal), None);
}

#[test]
fn first_fitting_bind_wins() {
    let binds = vec![
        bind(&["super"], "return", KeyAction::Quit),
        bind(&["super", "shift"], "return", KeyAction::CloseWindow),
        bind(&["super"], "return", KeyAction::ReloadConfig),
    ];
    assert_eq!(find_bind(&binds, &mods(true, false, false, false), "return"), Some(0));
    assert_eq!(find_bind(&binds, &mods(true, true, false, false), "return"), Some(1));
    assert_eq!(find_bind(&binds, &mods(false, false, false, false), "return"), None);
    assert_eq!(find_bind(&binds, &mods(true, false, false, false), "r"), None);
    assert_eq!(find_bind(&Vec::new(), &mods(true, false, false, false), "return"), None);
}

#[test]
fn decisions_in_order() {
    let binds = vec![
        bind(&["super"], "h", KeyAction::Quit),
        bind(&["super"], "return", KeyAction::Quit),
        bind(&["ctrl", "alt"], "f2", KeyAction::Quit),
        bind(&["super"], "i", KeyAction::ReloadConfig),
    ];
    let logo = mods(true, false, false, false);
    // A released key is never taken.
    let mut up = press("h");
    up.pressed = false;
    assert_eq!(key_decision(&up, &logo, MouseMode::Normal, &binds), KeyDecision::Forward);
    // Built-in keys come before configured ones.
    assert_eq!(
        key_decision(&press("h"), &logo, MouseMode::Normal, &binds),
        KeyDecision::Twm(Action::FocusLeft)
    );
    assert_eq!(
        key_decision(&press("return"), &logo, MouseMode::Normal, &binds),
        KeyDecision::Bind(1)
    );
    // The mode key switches once, then falls through to the bindings.
    assert_eq!(
        key_decision(&press("i"), &logo, MouseMode::Normal, &binds),
        KeyDecision::Mouse(MouseMode::Insert)
    );
    assert_eq!(key_decision(&press("i"), &logo, MouseMode::Insert, &binds), KeyDecision::Bind(3));
    assert_eq!(
        key_decision(&press("escape"), &logo, MouseMode::Insert, &binds),
        KeyDecision::Mouse(MouseMode::Normal)
    );
    assert_eq!(
        key_decision(&press("escape"), &logo, MouseMode::Normal, &binds),
        KeyDecision::Forward
    );
    // With shift the mode keys are not mode keys.
    assert_eq!(
        key_decision(&press("i"), &mods(true, true, false, false), MouseMode::Normal, &binds),
        KeyDecision::Forward
    );
    // Ctrl+Alt+F2 switches the terminal before any binding is looked at.
    let mut f2 = press("f2");
    f2.modified = 0x1008FE02;
    f2.base = 0xFFBF;
    let ctrl_alt = mods(false, false, true, true);
    assert_eq!(key_decision(&f2, &ctrl_alt, MouseMode::Normal, &binds), KeyDecision::SwitchVt(2));
    f2.modified = 0xFFBF;
    assert_eq!(key_decision(&f2, &ctrl_alt, MouseMode::Normal, &binds), KeyDecision::SwitchVt(2));
    f2.base = 0x61;
    f2.modified = 0x61;
    assert_eq!(key_decision(&f2, &ctrl_alt, MouseMode::Normal, &binds), KeyDecision::Bind(2));
    // Without the logo key the built-in keys go to the client.
    assert_eq!(
        key_decision(&press("h"), &mods(false, false, false, false), MouseMode::Normal, &binds),
        KeyDecision::Forward
    );
    // Ctrl or Alt beside the logo key switches the built-in keys off.
    assert_eq!(
        key_decision(&press("h"), &mods(true, false, true, false), MouseMode::Normal, &binds),
        KeyDecision::Forward
    );
    assert_eq!(
        key_decision(&press("h"), &mods(true, true, false, false), MouseMode::Normal, &binds),
        KeyDecision::Twm(Action::MoveLeft)
    );
    assert_eq!(
        key_decision(&press("3"), &mods(true, true, false, false), MouseMode::Normal, &binds),
        KeyDecision::Twm(Action::MoveToWorkspace(3))
    );
}

use trixie::config::{
    bool_of_word, modifier_of_word, vsync_of_word,
    apply_keyboard, can_place, find_rule, floating_marker, line_step, normalise_key_name, parse_bind,
    parse_bool, parse_exec, parse_hz, parse_key_action, parse_vsync, parse_windowrule, setting_key,
    split_kv, terminal_cmd, KeyAction, KeyboardConfig, LineStep, Modifier, MouseMode, SettingKey,
    VsyncMode, WindowRule,
};

#[test]
fn window_rule_matches_by_substring() {
    let rule = WindowRule {
        app_id: Some("fox".to_string()),
        title: Some("Mozilla".to_string()),
        floating: true,
        size: None,
        position: None,
    };
    assert!(rule.matches("firefox", "News - Mozilla Firefox"));
    assert!(!rule.matches("firefox", "News"));
    assert!(!rule.matches("chromium", "Mozilla"));
    let any = WindowRule { app_id: None, title: None, floating: false, size: None, position: None };
    assert!(any.matches("", ""));
    let empty = WindowRule { app_id: Some(String::new()), title: None, floating: false, size: None, position: None };
    assert!(empty.matches("x", "y"));
}

#[test]
fn defaults() {
    assert_eq!(VsyncMode::default(), VsyncMode::On);
    assert_eq!(Modifier::default(), Modifier::Super);
    assert_eq!(MouseMode::default(), MouseMode::Normal);
    let k = KeyboardConfig::default();
    assert_eq!((k.repeat_delay, k.repeat_rate, k.modifier), (200, 25, Modifier::Super));
    assert!(k.layout.is_none() && k.variant.is_none() && k.options.is_none());
}

#[test]
fn key_value_lines() {
    assert_eq!(split_kv("  terminal =  foot -e fish "), Some(("terminal".into(), "foot -e fish".into())));
    assert_eq!(split_kv("a=b=c"), Some(("a".into(), "b=c".into())));
    assert_eq!(split_kv("="), Some((String::new(), String::new())));
    assert_eq!(split_kv("general {"), None);
}

#[test]
fn switches() {
    for s in ["true", " YES ", "1", "On"] {
        assert_eq!(parse_bool(s), Some(true));
    }
    for s in ["false", "no", "0", "\tOFF\n"] {
        assert_eq!(parse_bool(s), Some(false));
    }
    assert_eq!(parse_bool("maybe"), None);
    assert_eq!(parse_bool(""), None);
    assert_eq!(parse_vsync(" Off "), VsyncMode::Off);
    assert_eq!(parse_vsync("false"), VsyncMode::Off);
    assert_eq!(parse_vsync("0"), VsyncMode::Off);
    assert_eq!(parse_vsync("ADAPTIVE"), VsyncMode::Adaptive);
    assert_eq!(parse_vsync("on"), VsyncMode::On);
    assert_eq!(parse_vsync("whatever"), VsyncMode::On);
    assert_eq!(normalise_key_name("Return"), "return");
    assert_eq!(normalise_key_name("\u{c4}"), "\u{e4}");
}

#[test]
fn exec_lines() {
    let e = parse_exec("  /usr/bin/waybar --config 'my file' ");
    assert_eq!(e.command, "/usr/bin/waybar");
    assert_eq!(e.args, vec!["--config", "my file"]);
    let e = parse_exec("  ");
    assert_eq!((e.command.as_str(), e.args.len()), ("  ", 0));
}

#[test]
fn key_actions() {
    assert!(matches!(parse_key_action(" quit ", "sh"), Some(KeyAction::Quit)));
    assert!(matches!(parse_key_action("close", "sh"), Some(KeyAction::CloseWindow)));
    assert!(matches!(parse_key_action("close_window", "sh"), Some(KeyAction::CloseWindow)));
    assert!(matches!(parse_key_action("reload", "sh"), Some(KeyAction::ReloadConfig)));
    assert!(matches!(parse_key_action("reload_config", "sh"), Some(KeyAction::ReloadConfig)));
    assert!(parse_key_action("Quit", "sh").is_none());
    assert!(parse_key_action("", "sh").is_none());
    assert!(matches!(parse_key_action("spawn", "/bin/zsh"),
        Some(KeyAction::Spawn { command, args }) if command == "/bin/zsh" && args.is_empty()));
    assert!(matches!(parse_key_action("spawn kitty --title term", "sh"),
        Some(KeyAction::Spawn { command, args }) if command == "kitty" && args == vec!["--title", "term"]));
    assert!(parse_key_action("spawn ''", "sh").is_none());
}

#[test]
fn binds() {
    let b = parse_bind("super shift, print, quit", "sh").unwrap();
    assert_eq!(b.mods, vec!["super", "shift"]);
    assert_eq!(b.key, "print");
    assert!(matches!(b.action, KeyAction::Quit));
    let b = parse_bind("Super,  Return , spawn kitty --title a,b", "sh").unwrap();
    assert_eq!(b.mods, vec!["super"]);
    assert_eq!(b.key, "return");
    assert!(matches!(b.action, KeyAction::Spawn { ref command, ref args }
        if command == "kitty" && args == &vec!["--title".to_string(), "a,b".to_string()]));
    let b = parse_bind(", q, close", "sh").unwrap();
    assert!(b.mods.is_empty());
    // a binding needs two commas, a key and a known action
    assert!(parse_bind("super, , quit", "sh").is_none());
    assert!(parse_bind("super, q", "sh").is_none());
    assert!(parse_bind("super, q, dance", "sh").is_none());
    assert!(parse_bind("", "sh").is_none());
}

#[test]
fn window_rules() {
    let r = parse_windowrule("float, sysmenu, size 450 286, pos 100 200").unwrap();
    assert!(r.floating);
    assert_eq!(r.app_id.as_deref(), Some("sysmenu"));
    assert_eq!(r.title, None);
    assert_eq!(r.size, Some([450, 286]));
    assert_eq!(r.position, Some([100, 200]));
    let r = parse_windowrule(" Floating , , size 1 x 2, pos -5 +7, size 3, pos 1 2 3").unwrap();
    assert!(r.floating);
    assert_eq!(r.app_id, None);
    // "size 1 x 2" holds two numbers; the parts with one or three do not count
    assert_eq!(r.size, Some([1, 2]));
    assert_eq!(r.position, Some([-5, 7]));
    let r = parse_windowrule("tile, foot, size 2147483648 1, size9 9").unwrap();
    assert!(!r.floating);
    assert_eq!(r.size, None);
    assert!(parse_windowrule("float").is_none());
}

#[test]
fn keyboard_section() {
    let mut k = KeyboardConfig::default();
    assert!(apply_keyboard("layout", "de", &mut k));
    assert!(apply_keyboard("variant", "nodeadkeys", &mut k));
    assert!(apply_keyboard("options", "caps:escape", &mut k));
    assert!(apply_keyboard("repeat_delay", " 300 ", &mut k));
    assert!(apply_keyboard("repeat_rate", "+40", &mut k));
    assert!(apply_keyboard("modifier", "alt", &mut k));
    assert_eq!(k.layout.as_deref(), Some("de"));
    assert_eq!(k.variant.as_deref(), Some("nodeadkeys"));
    assert_eq!(k.options.as_deref(), Some("caps:escape"));
    assert_eq!((k.repeat_delay, k.repeat_rate, k.modifier), (300, 40, Modifier::Alt));
    assert!(!apply_keyboard("repeat_rate", "-1", &mut k));
    assert!(!apply_keyboard("repeat_rate", "4294967296", &mut k));
    assert!(!apply_keyboard("repeat_delay", "fast", &mut k));
    assert!(!apply_keyboard("colour", "red", &mut k));
    assert_eq!((k.repeat_delay, k.repeat_rate), (300, 40));
    assert!(apply_keyboard("modifier", "Control", &mut k));
    assert_eq!(k.modifier, Modifier::Ctrl);
    assert!(apply_keyboard("modifier", "hyper", &mut k));
    assert_eq!(k.modifier, Modifier::Super);
}

fn set(section: &str, key: &str, value: &str) -> LineStep {
    LineStep::Setting { section: section.into(), key: key.into(), value: value.into() }
}

#[test]
fn lines_of_a_file() {
    let mut open: Vec<String> = Vec::new();
    assert_eq!(line_step(&mut open, ""), LineStep::Nothing);
    assert_eq!(line_step(&mut open, "   # only a comment"), LineStep::Nothing);
    assert_eq!(line_step(&mut open, "terminal = foot  # the terminal"), set("", "terminal", "foot"));
    assert_eq!(line_step(&mut open, "source = ~/extra.conf"), LineStep::Source("~/extra.conf".into()));
    assert_eq!(line_step(&mut open, "}"), LineStep::UnexpectedClose);
    assert!(open.is_empty());
    assert_eq!(line_step(&mut open, "nonsense"), LineStep::NotAPair("nonsense".into()));
    assert_eq!(line_step(&mut open, "  General  {  "), LineStep::Nothing);
    assert_eq!(open, vec!["general".to_string()]);
    assert_eq!(line_step(&mut open, "vsync = off"), set("general", "vsync", "off"));
    // Inside a section `source` is a key like any other.
    assert_eq!(line_step(&mut open, "source = x"), set("general", "source", "x"));
    assert_eq!(line_step(&mut open, "keyboard {{"), LineStep::Nothing);
    assert_eq!(open, vec!["general".to_string(), "keyboard".to_string()]);
    assert_eq!(line_step(&mut open, "layout = de"), set("keyboard", "layout", "de"));
    assert_eq!(line_step(&mut open, " } "), LineStep::Nothing);
    assert_eq!(open, vec!["general".to_string()]);
    assert_eq!(line_step(&mut open, "}"), LineStep::Nothing);
    assert!(open.is_empty());
    // A section without a name counts as the top level.
    assert_eq!(line_step(&mut open, "{"), LineStep::Nothing);
    assert_eq!(open, vec![String::new()]);
    assert_eq!(line_step(&mut open, "source = y"), LineStep::Source("y".into()));
    // A colour keeps its `#`.
    assert_eq!(
        line_step(&mut open, "background_color = #102030 # dark"),
        set("", "background_color", "#102030")
    );
}

#[test]
fn terminal_command() {
    assert_eq!(terminal_cmd("", "/home/u"), ("kitty".to_string(), Vec::<String>::new()));
    assert_eq!(terminal_cmd("   ", "/home/u"), ("kitty".to_string(), Vec::<String>::new()));
    assert_eq!(terminal_cmd("trixterm", "/home/u"), ("trixterm".to_string(), Vec::<String>::new()));
    assert_eq!(
        terminal_cmd("~/bin/term -e 'fish -l' ~/x", "/home/u"),
        (
            "/home/u/bin/term".to_string(),
            vec!["-e".to_string(), "fish -l".to_string(), "/home/u/x".to_string()]
        )
    );
}

#[test]
fn first_rule_for_a_window() {
    let rule = |app: &str, floating: bool| WindowRule {
        app_id: Some(app.to_string()),
        title: None,
        floating,
        size: None,
        position: None,
    };
    let rules = vec![rule("pavu", true), rule("fox", false), rule("firefox", true)];
    assert_eq!(find_rule(&rules, "org.firefox", ""), Some(1));
    assert_eq!(find_rule(&rules, "pavucontrol", "Volume"), Some(0));
    assert_eq!(find_rule(&rules, "kitty", ""), None);
    assert_eq!(find_rule(&Vec::new(), "kitty", ""), None);
}

#[test]
fn floating_windows_are_placed() {
    let mut rule = WindowRule { app_id: None, title: None, floating: false, size: None, position: None };
    assert!(floating_marker(&rule, 0, 0, 1920, 1080).is_none());
    rule.floating = true;
    let m = floating_marker(&rule, 0, 0, 1920, 1080).unwrap();
    assert_eq!(m.size, Some((640, 480)));
    assert_eq!(m.position, Some((640, 300)));
    rule.size = Some([801, 601]);
    let m = floating_marker(&rule, 100, 50, 800, 600).unwrap();
    assert_eq!(m.size, Some((801, 601)));
    // Half of -1 is 0: rounding is toward zero.
    assert_eq!(m.position, Some((100, 50)));
    rule.size = Some([803, 604]);
    let m = floating_marker(&rule, 100, 50, 800, 600).unwrap();
    assert_eq!(m.position, Some((99, 48)));
    assert!(can_place(&rule, 100, 50, 800, 600));
    assert!(!can_place(&rule, i32::MAX, 0, i32::MAX, 600));
    assert!(!can_place(&rule, 0, i32::MIN, 800, i32::MIN));
    rule.position = Some([-5, 7]);
    assert!(can_place(&rule, i32::MAX, 0, i32::MAX, 600));
    let m = floating_marker(&rule, 100, 50, 800, 600).unwrap();
    assert_eq!(m.size, Some((803, 604)));
    assert_eq!(m.position, Some((-5, 7)));
}

#[test]
fn keys_by_section() {
    for (key, kind) in [
        ("bind", SettingKey::Bind),
        ("windowrule", SettingKey::WindowRule),
        ("exec", SettingKey::Exec),
        ("exec_once", SettingKey::ExecOnce),
        ("terminal", SettingKey::Terminal),
        ("seat_name", SettingKey::SeatName),
        ("background_color", SettingKey::BackgroundColor),
        ("target_hz", SettingKey::TargetHz),
        ("vsync", SettingKey::Vsync),
        ("target_hs", SettingKey::UnknownKey),
        ("enabled", SettingKey::UnknownKey),
        ("Terminal", SettingKey::UnknownKey),
        ("", SettingKey::UnknownKey),
    ] {
        assert_eq!(setting_key("", key), kind, "{key}");
    }
    for (key, kind) in [
        ("terminal", SettingKey::Terminal),
        ("seat_name", SettingKey::SeatName),
        ("background_color", SettingKey::BackgroundColor),
        ("target_hz", SettingKey::TargetHz),
        ("target_hs", SettingKey::TargetHz),
        ("vsync", SettingKey::Vsync),
        ("bind", SettingKey::UnknownKey),
        ("exec", SettingKey::UnknownKey),
    ] {
        assert_eq!(setting_key("general", key), kind, "{key}");
    }
    assert_eq!(setting_key("vibrance", "enabled"), SettingKey::VibranceEnabled);
    assert_eq!(setting_key("vibrance", "strength"), SettingKey::VibranceStrength);
    assert_eq!(setting_key("vibrance", "balance"), SettingKey::VibranceBalance);
    assert_eq!(setting_key("vibrance", "vsync"), SettingKey::UnknownKey);
    assert_eq!(setting_key("keyboard", "layout"), SettingKey::Keyboard);
    assert_eq!(setting_key("keyboard", "anything"), SettingKey::Keyboard);
    assert_eq!(setting_key("colours", "terminal"), SettingKey::UnknownSection);
    assert_eq!(setting_key("General", "terminal"), SettingKey::UnknownSection);
}

#[test]
fn refresh_rates() {
    assert_eq!(parse_hz("60"), Some(60));
    assert_eq!(parse_hz("  144\t"), Some(144));
    assert_eq!(parse_hz("+75"), Some(75));
    assert_eq!(parse_hz("0"), Some(0));
    assert_eq!(parse_hz("007"), Some(7));
    assert_eq!(parse_hz("18446744073709551615"), Some(u64::MAX));
    assert_eq!(parse_hz("18446744073709551616"), None);
    assert_eq!(parse_hz("99999999999999999999999999"), None);
    assert_eq!(parse_hz("-1"), None);
    assert_eq!(parse_hz(""), None);
    assert_eq!(parse_hz("+"), None);
    assert_eq!(parse_hz("6 0"), None);
    assert_eq!(parse_hz("60hz"), None);
    assert_eq!(parse_hz("59.94"), None);
}

#[test]
fn words_are_taken_as_they_stand() {
    for w in ["true", "yes", "1", "on"] {
        assert_eq!(bool_of_word(w), Some(true), "{w}");
    }
    for w in ["false", "no", "0", "off"] {
        assert_eq!(bool_of_word(w), Some(false), "{w}");
    }
    for w in ["", "On", " on", "2", "maybe"] {
        assert_eq!(bool_of_word(w), None, "{w:?}");
    }
    // The same words through the parser, which trims and lowers them first.
    assert_eq!(parse_bool(" On "), Some(true));
    assert_eq!(parse_bool("NO"), Some(false));

    assert_eq!(vsync_of_word("off"), VsyncMode::Off);
    assert_eq!(vsync_of_word("false"), VsyncMode::Off);
    assert_eq!(vsync_of_word("0"), VsyncMode::Off);
    assert_eq!(vsync_of_word("adaptive"), VsyncMode::Adaptive);
    assert_eq!(vsync_of_word("on"), VsyncMode::On);
    assert_eq!(vsync_of_word("Off"), VsyncMode::On);
    assert_eq!(vsync_of_word(""), VsyncMode::On);
    assert_eq!(parse_vsync(" OFF"), VsyncMode::Off);
    assert_eq!(parse_vsync("Adaptive "), VsyncMode::Adaptive);

    assert_eq!(modifier_of_word("alt"), Modifier::Alt);
    assert_eq!(modifier_of_word("ctrl"), Modifier::Ctrl);
    assert_eq!(modifier_of_word("control"), Modifier::Ctrl);
    assert_eq!(modifier_of_word("super"), Modifier::Super);
    assert_eq!(modifier_of_word("ALT"), Modifier::Super);
    assert_eq!(modifier_of_word(""), Modifier::Super);
}

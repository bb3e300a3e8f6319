use trixie::config::{
    apply_keyboard, line_step, parse_bind, parse_bool, parse_exec, parse_hz, parse_vsync,
    parse_windowrule, setting_key, ExecEntry, KeyAction, Keybind, KeyboardConfig, LineStep,
    Modifier, SettingKey, VsyncMode, WindowRule,
};
use trixie::util::hex4;

/// What a configuration text sets, with the settings that are fractions
/// read the way the compositor reads them.
struct Settings {
    terminal: String,
    seat_name: String,
    background_color: [f32; 4],
    target_hz: Option<u64>,
    vsync: VsyncMode,
    vibrance_enabled: bool,
    vibrance_strength: f32,
    vibrance_balance: [f32; 3],
    keyboard: KeyboardConfig,
    keybinds: Vec<Keybind>,
    window_rules: Vec<WindowRule>,
    exec: Vec<ExecEntry>,
    exec_once: Vec<ExecEntry>,
}

fn colour(value: &str) -> Option<[f32; 4]> {
    if value.trim().trim_start_matches('#').len() >= 6 {
        return Some(hex4(value).map(|c| c as f32 / 255.0));
    }
    let n: Vec<f32> = value.split_whitespace().filter_map(|w| w.parse().ok()).collect();
    match n.as_slice() {
        [r, g, b] => Some([*r, *g, *b, 1.0]),
        [r, g, b, a] => Some([*r, *g, *b, *a]),
        _ => None,
    }
}

fn parse(text: &str) -> Settings {
    let mut cfg = Settings {
        terminal: "trixterm".into(),
        seat_name: "seat0".into(),
        background_color: [0.05, 0.05, 0.05, 1.0],
        target_hz: None,
        vsync: VsyncMode::On,
        vibrance_enabled: false,
        vibrance_strength: 0.45,
        vibrance_balance: [1.0, 1.0, 1.0],
        keyboard: KeyboardConfig::default(),
        keybinds: Vec::new(),
        window_rules: Vec::new(),
        exec: Vec::new(),
        exec_once: Vec::new(),
    };
    let mut sections: Vec<String> = Vec::new();
    for line in text.lines() {
        let (section, key, value) = match line_step(&mut sections, line) {
            LineStep::Nothing => continue,
            LineStep::Setting { section, key, value } => (section, key, value),
            other => panic!("{other:?}"),
        };
        match setting_key(&section, &key) {
            SettingKey::Bind => cfg.keybinds.extend(parse_bind(&value, "sh")),
            SettingKey::WindowRule => cfg.window_rules.extend(parse_windowrule(&value)),
            SettingKey::Exec => cfg.exec.push(parse_exec(&value)),
            SettingKey::ExecOnce => cfg.exec_once.push(parse_exec(&value)),
            SettingKey::Terminal => cfg.terminal = value,
            SettingKey::SeatName => cfg.seat_name = value,
            SettingKey::BackgroundColor => {
                if let Some(c) = colour(&value) {
                    cfg.background_color = c;
                }
            }
            SettingKey::TargetHz => {
                if let Some(n) = parse_hz(&value) {
                    cfg.target_hz = Some(n);
                }
            }
            SettingKey::Vsync => cfg.vsync = parse_vsync(&value),
            SettingKey::VibranceEnabled => {
                if let Some(b) = parse_bool(&value) {
                    cfg.vibrance_enabled = b;
                }
            }
            SettingKey::VibranceStrength => {
                if let Ok(s) = value.trim().parse::<f32>() {
                    cfg.vibrance_strength = s.clamp(-1.0, 1.0);
                }
            }
            SettingKey::VibranceBalance => {
                let n: Vec<f32> = value.split_whitespace().filter_map(|w| w.parse().ok()).collect();
                if let [r, g, b] = n.as_slice() {
                    cfg.vibrance_balance = [*r, *g, *b];
                }
            }
            SettingKey::Keyboard => {
                apply_keyboard(&key, &value, &mut cfg.keyboard);
            }
            SettingKey::UnknownKey | SettingKey::UnknownSection => {}
        }
    }
    assert!(sections.is_empty(), "unclosed section(s): {}", sections.join(" > "));
    cfg
}

#[test]
fn general_section() {
    let cfg = parse("general {\n  terminal = foot\n  vsync = off\n  target_hz = 144\n}");
    assert_eq!(cfg.terminal, "foot");
    assert_eq!(cfg.vsync, VsyncMode::Off);
    assert_eq!(cfg.target_hz, Some(144));
}

#[test]
fn bind_quit() {
    let cfg = parse("bind = super shift, print, quit");
    assert_eq!(cfg.keybinds.len(), 1);
    assert!(matches!(cfg.keybinds[0].action, KeyAction::Quit));
    assert!(cfg.keybinds[0].mods.contains(&"super".to_string()));
    assert!(cfg.keybinds[0].mods.contains(&"shift".to_string()));
}

#[test]
fn bind_spawn() {
    let cfg = parse("bind = super, return, spawn kitty --title term");
    assert!(matches!(
        &cfg.keybinds[0].action,
        KeyAction::Spawn { command, .. } if command == "kitty"
    ));
}

#[test]
fn bind_empty_key_rejected() {
    // A trailing comma or empty key field must not produce a keybind.
    let cfg = parse("bind = super, , quit");
    assert_eq!(cfg.keybinds.len(), 0);
}

#[test]
fn keyboard_modifier() {
    let cfg = parse("keyboard {\n  modifier = alt\n}");
    assert_eq!(cfg.keyboard.modifier, Modifier::Alt);
}

#[test]
fn windowrule_float_size_pos() {
    let cfg = parse("windowrule = float, sysmenu, size 450 286, pos 100 200");
    let r = &cfg.window_rules[0];
    assert!(r.floating);
    assert_eq!(r.app_id.as_deref(), Some("sysmenu"));
    assert_eq!(r.size, Some([450, 286]));
    assert_eq!(r.position, Some([100, 200]));
}

#[test]
fn exec_entry() {
    let cfg = parse("exec_once = /usr/bin/waybar");
    assert_eq!(cfg.exec_once[0].command, "/usr/bin/waybar");
}

#[test]
fn vibrance_section() {
    let cfg = parse("vibrance {\n  enabled = true\n  strength = 0.5\n  balance = 1.0 0.9 1.1\n}");
    assert!(cfg.vibrance_enabled);
    assert!((cfg.vibrance_strength - 0.5).abs() < 1e-6);
    assert!((cfg.vibrance_balance[1] - 0.9).abs() < 1e-6);
}

#[test]
fn hex_color() {
    let cfg = parse("background_color = #0D0D14");
    assert!((cfg.background_color[0] - 0x0D as f32 / 255.0).abs() < 1e-4);
}

#[test]
fn inline_comment_stripped() {
    let cfg = parse("general {\n  vsync = off  # disable vsync\n}");
    assert_eq!(cfg.vsync, VsyncMode::Off);
}

#[test]
fn hex_color_not_stripped_as_comment() {
    let cfg = parse("background_color = #1E1E2E");
    assert!((cfg.background_color[0] - 0x1E as f32 / 255.0).abs() < 1e-4);
}

#[test]
fn hex4_rrggbb() {
    let c = hex4("#1E1E2E").map(|c| c as f32 / 255.0);
    assert!((c[0] - 0x1E as f32 / 255.0).abs() < 1e-4);
    assert_eq!(c[3], 1.0);
}

#[test]
fn colours_with_opacity() {
    assert_eq!(hex4("#1E1E2E"), [0x1E, 0x1E, 0x2E, 0xFF]);
    assert_eq!(hex4("  ##1e1e2e80 "), [0x1E, 0x1E, 0x2E, 0x80]);
    assert_eq!(hex4("0D0D14"), [0x0D, 0x0D, 0x14, 0xFF]);
    // neither six nor eight digits
    assert_eq!(hex4("#1E1E2"), [0xFF, 0x00, 0xFF, 0xFF]);
    assert_eq!(hex4("#1E1E2E8"), [0xFF, 0x00, 0xFF, 0xFF]);
    assert_eq!(hex4(""), [0xFF, 0x00, 0xFF, 0xFF]);
    // a pair that is no number counts as 255
    assert_eq!(hex4("#zz0000"), [0xFF, 0x00, 0x00, 0xFF]);
    assert_eq!(hex4("#+a000000"), [0x0A, 0x00, 0x00, 0x00]);
}

#[test]
fn whole_file() {
    let cfg = parse(
        "# trixie\n\
         terminal = ~/bin/term -e fish   # the shell\n\
         seat_name = seat1\n\
         exec = waybar --config 'a b'\n\
         \n\
         general {\n\
             target_hs = 75\n\
         }\n\
         keyboard {\n\
             layout = de\n\
             repeat_rate = 40\n\
             repeat_delay = soon\n\
         }\n\
         windowrule = float, pavucontrol\n\
         windowrule = nonsense\n\
         colours {\n\
             terminal = other\n\
         }\n",
    );
    assert_eq!(cfg.terminal, "~/bin/term -e fish");
    assert_eq!(cfg.seat_name, "seat1");
    assert_eq!(cfg.exec.len(), 1);
    assert_eq!(cfg.exec[0].command, "waybar");
    assert_eq!(cfg.exec[0].args, vec!["--config".to_string(), "a b".to_string()]);
    assert_eq!(cfg.target_hz, Some(75));
    assert_eq!(cfg.keyboard.layout.as_deref(), Some("de"));
    assert_eq!((cfg.keyboard.repeat_rate, cfg.keyboard.repeat_delay), (40, 200));
    assert_eq!(cfg.window_rules.len(), 1);
    assert!(cfg.window_rules[0].floating);
    assert_eq!(cfg.vsync, VsyncMode::On);
}

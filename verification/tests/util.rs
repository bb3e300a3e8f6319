use trixie::util::{derive_variant, expand_tilde, hex3, resolve_path, shell_words, strip_comment};

#[test]
fn strip_hex_colour_untouched() {
    assert_eq!(
        strip_comment("background_color = #1E1E2E"),
        "background_color = #1E1E2E"
    );
}

#[test]
fn strip_trailing_comment() {
    assert_eq!(
        strip_comment("vsync = off  # disable vsync"),
        "vsync = off  "
    );
}

#[test]
fn strip_hex_with_trailing_comment() {
    // second `#` after the colour token is a comment
    assert_eq!(
        strip_comment("background_color = #1E1E2E # dark bg"),
        "background_color = #1E1E2E "
    );
}

#[test]
fn shell_words_quoted() {
    assert_eq!(
        shell_words(r#"kitty --title "my term" -e fish"#),
        vec!["kitty", "--title", "my term", "-e", "fish"]
    );
}

#[test]
fn shell_words_single_quoted() {
    assert_eq!(
        shell_words("exec '/usr/bin/my app'"),
        vec!["exec", "/usr/bin/my app"]
    );
}

#[test]
fn hex3_parse() {
    assert_eq!(hex3("#B4BEFE"), [0xB4, 0xBE, 0xFE]);
    assert_eq!(hex3("B4BEFE"), [0xB4, 0xBE, 0xFE]);
}

#[test]
fn hex3_short_text_is_magenta() {
    assert_eq!(hex3("#FFF"), [0xFF, 0x00, 0xFF]);
    assert_eq!(hex3(""), [0xFF, 0x00, 0xFF]);
}

#[test]
fn hex3_bad_channel_is_255() {
    assert_eq!(hex3("  #zz0001  "), [0xFF, 0x00, 0x01]);
    assert_eq!(hex3("+f0a0b"), [0x0F, 0x0A, 0x0B]);
}

#[test]
fn shell_words_escapes_and_open_quotes() {
    assert_eq!(shell_words(r"a\ b  c"), vec!["a b", "c"]);
    assert_eq!(shell_words("x 'open quote"), vec!["x", "open quote"]);
    assert_eq!(shell_words(r#""a\"b" ''"#), vec!["a\"b"]);
    assert!(shell_words(" \t ").is_empty());
}

#[test]
fn strip_comment_in_key_and_plain_lines() {
    assert_eq!(strip_comment("# whole line"), "");
    assert_eq!(strip_comment("key #c = value"), "key ");
    assert_eq!(strip_comment("general { # open"), "general { ");
    assert_eq!(strip_comment("a#b"), "a#b");
    assert_eq!(strip_comment("k = v#notcomment"), "k = v");
}

#[test]
fn expand_tilde_home() {
    assert_eq!(expand_tilde("~/.config", "/home/user"), "/home/user/.config");
    assert_eq!(expand_tilde("/absolute", "/home/user"), "/absolute");
}

#[test]
fn expand_tilde_only_at_the_start() {
    assert_eq!(expand_tilde("~", "/h"), "/h");
    assert_eq!(expand_tilde("a~b", "/h"), "a~b");
    assert_eq!(expand_tilde("", "/h"), "");
    assert_eq!(expand_tilde("~~", ""), "~");
}

#[test]
fn resolve_path_against_the_file() {
    assert_eq!(resolve_path("/etc/x.conf", "/home/u/.config/trixie/a.conf", "/home/u"), "/etc/x.conf");
    assert_eq!(resolve_path("~/x.conf", "/etc/a.conf", "/home/u"), "/home/u/x.conf");
    assert_eq!(
        resolve_path("extra/x.conf", "/home/u/.config/trixie/a.conf", "/home/u"),
        "/home/u/.config/trixie/extra/x.conf"
    );
    assert_eq!(resolve_path("x.conf", "a.conf", "/home/u"), "x.conf");
    assert_eq!(resolve_path("x.conf", "/", "/home/u"), "./x.conf");
}

#[test]
fn derive_variant_replaces_regular() {
    assert_eq!(derive_variant("JetBrainsMono-Regular.ttf", "Bold"), "JetBrainsMono-Bold.ttf");
    assert_eq!(derive_variant("Fira_Regular.otf", "Italic"), "Fira-Italic.otf");
    assert_eq!(derive_variant("HackREGULAR.ttf", "Bold"), "Hack-Bold.ttf");
    assert_eq!(derive_variant("Hack.ttf", "Bold"), "Hack-Bold.ttf");
    assert_eq!(derive_variant("Hack", "Bold"), "Hack-Bold.ttf");
    assert_eq!(derive_variant("a.b-regular-x.woff", "It"), "a.b-It.woff");
    assert_eq!(derive_variant("", "Bold"), "-Bold.ttf");
}

#[test]
fn colours_and_names_outside_ascii() {
    // White space of any kind is taken off around a colour.
    assert_eq!(hex3("\u{a0}#B4BEFE\u{2003}"), [0xB4, 0xBE, 0xFE]);
    assert_eq!(trixie::util::hex4("\u{3000}#01020304"), [1, 2, 3, 4]);
    // Digits are read by characters: a pair with a letter that is no digit counts as 255.
    assert_eq!(hex3("#\u{e9}10203"), [0xFF, 0x02, 0x03]);
    assert_eq!(hex3("\u{e9}\u{e9}"), [0xFF, 0x00, 0xFF]);
    // Only ASCII letters are compared without regard to case in a file name.
    assert_eq!(derive_variant("\u{dc}ber-REGULAR.ttf", "Bold"), "\u{dc}ber-Bold.ttf");
    assert_eq!(derive_variant("\u{5b57}\u{4f53}.otf", "Italic"), "\u{5b57}\u{4f53}-Italic.otf");
}

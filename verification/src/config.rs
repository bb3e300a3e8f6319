//! What the compositor is configured with, as far as its core reads it.

use crate::text::{
    all_ascii, ascii_lowered, chars_of, contains_chars, lowercase, lowercased, matches_at, occurs,
    occurs_at, parse_int, parse_u64, parsed_int, split_words, str_eq, string_of, trim_chars,
    trim_range, trimmed, trimmed_part, vec_views, words_at,
};
use crate::util::{
    comment_start, expand_tilde, find_equals, shell_words, shell_words_spec, string_views,
    strip_comment,
};
use vstd::prelude::*;

verus! {

#[derive(Debug, Clone, Copy, PartialEq, Eq, Structural)]
pub enum VsyncMode {
    On,
    Off,
    Adaptive,
}

impl Default for VsyncMode {
    fn default() -> (m: VsyncMode)
        ensures
            m == VsyncMode::On,
    {
        VsyncMode::On
    }
}

/// A command that is started with the compositor.
#[derive(Debug, Clone)]
pub struct ExecEntry {
    pub command: String,
    pub args: Vec<String>,
}

/// The key that compositor bindings are held with.
#[derive(Debug, Clone, Copy, PartialEq, Eq, Structural)]
pub enum Modifier {
    Super,
    Alt,
    Ctrl,
}

impl Default for Modifier {
    fn default() -> (m: Modifier)
        ensures
            m == Modifier::Super,
    {
        Modifier::Super
    }
}

#[derive(Debug, Clone)]
pub struct KeyboardConfig {
    pub layout: Option<String>,
    pub variant: Option<String>,
    pub options: Option<String>,
    pub repeat_delay: u32,
    pub repeat_rate: u32,
    /// Primary compositor modifier key.
    pub modifier: Modifier,
}

impl Default for KeyboardConfig {
    fn default() -> (k: KeyboardConfig)
        ensures
            k.layout is None,
            k.variant is None,
            k.options is None,
            k.repeat_delay == 200,
            k.repeat_rate == 25,
            k.modifier == Modifier::Super,
    {
        KeyboardConfig {
            layout: None,
            variant: None,
            options: None,
            repeat_delay: 200,
            repeat_rate: 25,
            modifier: Modifier::Super,
        }
    }
}

#[derive(Debug, Clone)]
pub struct Keybind {
    pub mods: Vec<String>,
    pub key: String,
    pub action: KeyAction,
}

#[derive(Debug, Clone)]
pub enum KeyAction {
    Quit,
    CloseWindow,
    ReloadConfig,
    Spawn { command: String, args: Vec<String> },
}

/// A rule for windows whose application id and title hold given texts.
#[derive(Debug, Clone)]
pub struct WindowRule {
    pub app_id: Option<String>,
    pub title: Option<String>,
    pub floating: bool,
    pub size: Option<[i32; 2]>,
    pub position: Option<[i32; 2]>,
}

impl WindowRule {
    /// The rule is for a window: each text that the rule names stands in
    /// what it is a rule for.
    pub open spec fn matches_spec(&self, app_id: Seq<char>, title: Seq<char>) -> bool {
        (match self.app_id {
            Some(p) => occurs(app_id, p@),
            None => true,
        }) && (match self.title {
            Some(p) => occurs(title, p@),
            None => true,
        })
    }

    pub fn matches(&self, app_id: &str, title: &str) -> (b: bool)
        ensures
            b == self.matches_spec(app_id@, title@),
    {
        let by_app: bool = match &self.app_id {
            Some(p) => contains_chars(&chars_of(app_id), &chars_of(p.as_str())),
            None => true,
        };
        by_app && match &self.title {
            Some(p) => contains_chars(&chars_of(title), &chars_of(p.as_str())),
            None => true,
        }
    }
}

/// Marks a window as floating, with the size and the place it was given.
#[derive(Debug)]
pub struct FloatingMarker {
    pub size: Option<(i32, i32)>,
    pub position: Option<(i32, i32)>,
}

/// How the pointer is used.
#[derive(Debug, Clone, Copy, PartialEq, Eq, Structural)]
pub enum MouseMode {
    Normal,
    Insert,
}

impl Default for MouseMode {
    fn default() -> (m: MouseMode)
        ensures
            m == MouseMode::Normal,
    {
        MouseMode::Normal
    }
}

/// Marks a window whose rules were applied.
pub struct RulesApplied;

// ── small parsers ────────────────────────────────────────────────────────────

fn trim_vec(v: &Vec<char>) -> (t: Vec<char>)
    ensures
        t@ == trimmed(v@),
{
    let (a, b) = trim_range(v, 0, v.len());
    part(v, a, b)
}

fn part(v: &Vec<char>, from: usize, to: usize) -> (t: Vec<char>)
    requires
        from <= to <= v.len(),
    ensures
        t@ == v@.subrange(from as int, to as int),
{
    let mut t: Vec<char> = Vec::new();
    let mut i: usize = from;
    while i < to
        invariant
            from <= i <= to <= v.len(),
            t@ == v@.subrange(from as int, i as int),
        decreases to - i,
    {
        t.push(v[i]);
        proof {
            assert(t@ =~= v@.subrange(from as int, i + 1));
        }
        i = i + 1;
    }
    t
}

fn text_of(v: &Vec<char>) -> (s: String)
    ensures
        s@ == v@,
{
    let s = string_of(v, 0, v.len());
    assert(v@.subrange(0, v@.len() as int) =~= v@);
    s
}

/// `s` without the white space around it, in lower case.
fn lower_trimmed(s: &str) -> (t: String)
    ensures
        t@ == lowercased(trimmed(s@)),
        all_ascii(s@) ==> t@ == ascii_lowered(trimmed(s@)),
{
    let v = trim_vec(&chars_of(s));
    proof {
        if all_ascii(s@) {
            crate::text::lemma_trimmed_ascii(s@);
        }
    }
    lowercase(text_of(&v).as_str())
}

fn lower_vec(v: &Vec<char>) -> (t: Vec<char>)
    ensures
        t@ == lowercased(v@),
{
    let s = text_of(v);
    let l = lowercase(s.as_str());
    chars_of(l.as_str())
}

fn is_text(v: &Vec<char>, lit: &str) -> (b: bool)
    ensures
        b == (v@ == lit@),
{
    let l = chars_of(lit);
    if v.len() != l.len() {
        return false;
    }
    let b = matches_at(v, &l, 0);
    proof {
        assert(v@.subrange(0, v@.len() as int) =~= v@);
    }
    b
}

/// A line of the form `key = value`, split at its first `=`, both sides
/// without the white space around them.
pub open spec fn split_kv_spec(line: Seq<char>) -> Option<(Seq<char>, Seq<char>)> {
    let eq = find_equals(line, 0);
    if eq < line.len() {
        Some((trimmed_part(line, 0, eq), trimmed_part(line, eq + 1, line.len() as int)))
    } else {
        None
    }
}

proof fn lemma_find_equals(line: Seq<char>, i: int)
    requires
        0 <= i <= line.len(),
    ensures
        i <= find_equals(line, i) <= line.len(),
    decreases line.len() - i,
{
    if i < line.len() {
        lemma_find_equals(line, i + 1);
    }
}

pub fn split_kv(line: &str) -> (r: Option<(String, String)>)
    ensures
        match split_kv_spec(line@) {
            Some(kv) => r matches Some(got) && got.0@ == kv.0 && got.1@ == kv.1,
            None => r is None,
        },
{
    let v = chars_of(line);
    let n: usize = v.len();
    let mut eq: usize = 0;
    while eq < n && v[eq] != '='
        invariant
            eq <= n,
            n == v@.len(),
            find_equals(v@, 0) == find_equals(v@, eq as int),
        decreases n - eq,
    {
        eq = eq + 1;
    }
    if eq >= n {
        return None;
    }
    let (a, b) = trim_range(&v, 0, eq);
    let (c, d) = trim_range(&v, eq + 1, n);
    Some((string_of(&v, a, b), string_of(&v, c, d)))
}

/// What a text says of a switch: `true`, `yes`, `1` and `on` are true,
/// `false`, `no`, `0` and `off` are false, in any case and with white space
/// around them.
pub open spec fn parse_bool_spec(s: Seq<char>) -> Option<bool> {
    bool_word(lowercased(trimmed(s)))
}

/// What a word in lower case says of a switch.
pub open spec fn bool_word(t: Seq<char>) -> Option<bool> {
    if t == "true"@ || t == "yes"@ || t == "1"@ || t == "on"@ {
        Some(true)
    } else if t == "false"@ || t == "no"@ || t == "0"@ || t == "off"@ {
        Some(false)
    } else {
        None
    }
}

/// What a word says of a switch; the word is taken as it stands.
pub fn bool_of_word(word: &str) -> (r: Option<bool>)
    ensures
        r == bool_word(word@),
{
    if str_eq(word, "true") || str_eq(word, "yes") || str_eq(word, "1") || str_eq(word, "on") {
        Some(true)
    } else if str_eq(word, "false") || str_eq(word, "no") || str_eq(word, "0") || str_eq(
        word,
        "off",
    ) {
        Some(false)
    } else {
        None
    }
}

pub fn parse_bool(s: &str) -> (r: Option<bool>)
    ensures
        r == parse_bool_spec(s@),
        all_ascii(s@) ==> r == bool_word(ascii_lowered(trimmed(s@))),
{
    bool_of_word(lower_trimmed(s).as_str())
}

/// The vsync mode that a text names: off for `off`, `false` and `0`,
/// adaptive for `adaptive`, on for anything else.
pub open spec fn parse_vsync_spec(s: Seq<char>) -> VsyncMode {
    vsync_word(lowercased(trimmed(s)))
}

/// The vsync mode that a word in lower case names.
pub open spec fn vsync_word(t: Seq<char>) -> VsyncMode {
    if t == "off"@ || t == "false"@ || t == "0"@ {
        VsyncMode::Off
    } else if t == "adaptive"@ {
        VsyncMode::Adaptive
    } else {
        VsyncMode::On
    }
}

/// The vsync mode that a word names; the word is taken as it stands.
pub fn vsync_of_word(word: &str) -> (m: VsyncMode)
    ensures
        m == vsync_word(word@),
{
    if str_eq(word, "off") || str_eq(word, "false") || str_eq(word, "0") {
        VsyncMode::Off
    } else if str_eq(word, "adaptive") {
        VsyncMode::Adaptive
    } else {
        VsyncMode::On
    }
}

pub fn parse_vsync(s: &str) -> (m: VsyncMode)
    ensures
        m == parse_vsync_spec(s@),
        all_ascii(s@) ==> m == vsync_word(ascii_lowered(trimmed(s@))),
{
    vsync_of_word(lower_trimmed(s).as_str())
}

/// The name of a key as bindings are compared by: in lower case. The
/// names of keys are ASCII; of such a name the letters `A` to `Z` become
/// `a` to `z`, and nothing else changes.
pub fn normalise_key_name(name: &str) -> (r: String)
    ensures
        r@ == lowercased(name@),
        all_ascii(name@) ==> r@ == ascii_lowered(name@),
{
    lowercase(name)
}

fn rest_of(words: Vec<String>) -> (r: (String, Vec<String>))
    requires
        words@.len() > 0,
    ensures
        r.0@ == words@[0]@,
        string_views(r.1@) == string_views(words@).subrange(1, words@.len() as int),
{
    let ghost all = words@;
    let mut words = words;
    let first = words.remove(0);
    assert(string_views(words@) =~= string_views(all).subrange(1, all.len() as int));
    (first, words)
}

/// The command of an `exec` line: its first word and the words behind it;
/// the line as it stands if it has no word.
pub fn parse_exec(value: &str) -> (e: ExecEntry)
    ensures
        ({
            let words = shell_words_spec(trimmed(value@));
            if words.len() == 0 {
                e.command@ == value@ && e.args@.len() == 0
            } else {
                e.command@ == words[0] && string_views(e.args@) == words.subrange(
                    1,
                    words.len() as int,
                )
            }
        }),
{
    let t = text_of(&trim_vec(&chars_of(value)));
    let words = shell_words(t.as_str());
    if words.len() == 0 {
        return ExecEntry { command: value.to_owned(), args: Vec::new() };
    }
    let (command, args) = rest_of(words);
    ExecEntry { command, args }
}

pub enum KeyActionView {
    Quit,
    CloseWindow,
    ReloadConfig,
    Spawn { command: Seq<char>, args: Seq<Seq<char>> },
}

impl View for KeyAction {
    type V = KeyActionView;

    open spec fn view(&self) -> KeyActionView {
        match *self {
            KeyAction::Quit => KeyActionView::Quit,
            KeyAction::CloseWindow => KeyActionView::CloseWindow,
            KeyAction::ReloadConfig => KeyActionView::ReloadConfig,
            KeyAction::Spawn { command, args } => KeyActionView::Spawn {
                command: command@,
                args: string_views(args@),
            },
        }
    }
}

/// The action that a text names. `spawn` with a command line starts that
/// command, without one the shell `shell`; `quit`, `close_window` or
/// `close`, and `reload_config` or `reload` name the other actions.
pub open spec fn parse_key_action_spec(s: Seq<char>, shell: Seq<char>) -> Option<KeyActionView> {
    let t = trimmed(s);
    if occurs_at(t, "spawn"@, 0) {
        let rest = trimmed(t.subrange("spawn"@.len() as int, t.len() as int));
        let words = shell_words_spec(rest);
        if rest.len() == 0 {
            Some(KeyActionView::Spawn { command: shell, args: Seq::empty() })
        } else if words.len() == 0 {
            None
        } else {
            Some(
                KeyActionView::Spawn {
                    command: words[0],
                    args: words.subrange(1, words.len() as int),
                },
            )
        }
    } else if t == "quit"@ {
        Some(KeyActionView::Quit)
    } else if t == "close_window"@ || t == "close"@ {
        Some(KeyActionView::CloseWindow)
    } else if t == "reload_config"@ || t == "reload"@ {
        Some(KeyActionView::ReloadConfig)
    } else {
        None
    }
}

pub fn parse_key_action(s: &str, shell: &str) -> (r: Option<KeyAction>)
    ensures
        match parse_key_action_spec(s@, shell@) {
            Some(a) => r matches Some(got) && got@ == a,
            None => r is None,
        },
{
    let t = trim_vec(&chars_of(s));
    let spawn = chars_of("spawn");
    if matches_at(&t, &spawn, 0) {
        let rest = trim_vec(&part(&t, spawn.len(), t.len()));
        if rest.len() == 0 {
            let args: Vec<String> = Vec::new();
            assert(string_views(args@) =~= Seq::<Seq<char>>::empty());
            return Some(KeyAction::Spawn { command: shell.to_owned(), args });
        }
        let words = shell_words(text_of(&rest).as_str());
        if words.len() == 0 {
            return None;
        }
        let (command, args) = rest_of(words);
        return Some(KeyAction::Spawn { command, args });
    }
    if is_text(&t, "quit") {
        Some(KeyAction::Quit)
    } else if is_text(&t, "close_window") || is_text(&t, "close") {
        Some(KeyAction::CloseWindow)
    } else if is_text(&t, "reload_config") || is_text(&t, "reload") {
        Some(KeyAction::ReloadConfig)
    } else {
        None
    }
}

/// Position of the first comma from `i` on, or the text's length.
pub open spec fn find_comma(s: Seq<char>, i: int) -> int
    decreases s.len() - i,
{
    if i < 0 || i >= s.len() {
        s.len() as int
    } else if s[i] == ',' {
        i
    } else {
        find_comma(s, i + 1)
    }
}

fn comma_from(v: &Vec<char>, from: usize) -> (i: usize)
    requires
        from <= v.len(),
    ensures
        i == find_comma(v@, from as int),
        from <= i <= v.len(),
{
    let mut i: usize = from;
    while i < v.len() && v[i] != ','
        invariant
            from <= i <= v.len(),
            find_comma(v@, from as int) == find_comma(v@, i as int),
        decreases v.len() - i,
    {
        i = i + 1;
    }
    i
}

/// The words of a text in lower case.
pub open spec fn lower_words(words: Seq<Seq<char>>) -> Seq<Seq<char>> {
    Seq::new(words.len(), |i: int| lowercased(words[i]))
}

/// A binding `mods, key, action`: the modifiers are the words before the
/// first comma, the key stands between the first and the second, the
/// action is the rest. Modifiers and key are taken in lower case. A line
/// with fewer than two commas, without a key or with an unknown action is
/// no binding.
pub open spec fn parse_bind_spec(value: Seq<char>, shell: Seq<char>) -> Option<
    (Seq<Seq<char>>, Seq<char>, KeyActionView),
> {
    let c1 = find_comma(value, 0);
    let c2 = find_comma(value, c1 + 1);
    if c1 >= value.len() || c2 >= value.len() {
        None
    } else {
        let key = lowercased(trimmed_part(value, c1 + 1, c2));
        match parse_key_action_spec(value.subrange(c2 + 1, value.len() as int), shell) {
            Some(action) => if key.len() == 0 {
                None
            } else {
                Some(
                    (
                        lower_words(words_at(value.subrange(0, c1), 0, Seq::empty())),
                        key,
                        action,
                    ),
                )
            },
            None => None,
        }
    }
}

pub fn parse_bind(value: &str, shell: &str) -> (r: Option<Keybind>)
    ensures
        match parse_bind_spec(value@, shell@) {
            Some(b) => r matches Some(got) && string_views(got.mods@) == b.0 && got.key@ == b.1
                && got.action@ == b.2,
            None => r is None,
        },
{
    let v = chars_of(value);
    let n: usize = v.len();
    let c1 = comma_from(&v, 0);
    if c1 >= n {
        return None;
    }
    let c2 = comma_from(&v, c1 + 1);
    if c2 >= n {
        return None;
    }
    let words = split_words(&v, 0, c1);
    let mut mods: Vec<String> = Vec::new();
    let mut i: usize = 0;
    let ghost want = lower_words(vec_views(words@));
    while i < words.len()
        invariant
            i <= words.len(),
            mods@.len() == i,
            want == lower_words(vec_views(words@)),
            forall|j: int| 0 <= j < i ==> (#[trigger] mods@[j])@ == want[j],
        decreases words.len() - i,
    {
        assert(vec_views(words@)[i as int] == words@[i as int]@);
        mods.push(lowercase(text_of(&words[i]).as_str()));
        i = i + 1;
    }
    assert(string_views(mods@) =~= want);
    let (a, b) = trim_range(&v, c1 + 1, c2);
    let key = lowercase(string_of(&v, a, b).as_str());
    let action = parse_key_action(string_of(&v, c2 + 1, n).as_str(), shell);
    if key.as_str().unicode_len() == 0 {
        return None;
    }
    match action {
        Some(action) => Some(Keybind { mods, key, action }),
        None => None,
    }
}

/// The parts of a text between its commas, from position `i` on, where
/// `from` is where the current part began.
pub open spec fn comma_parts(s: Seq<char>, from: int, i: int) -> Seq<Seq<char>>
    decreases s.len() - i,
{
    if i < from || from < 0 || i >= s.len() {
        if 0 <= from <= s.len() {
            seq![s.subrange(from, s.len() as int)]
        } else {
            Seq::empty()
        }
    } else if s[i] == ',' {
        seq![s.subrange(from, i)] + comma_parts(s, i + 1, i + 1)
    } else {
        comma_parts(s, from, i + 1)
    }
}

fn split_commas(v: &Vec<char>) -> (parts: Vec<Vec<char>>)
    ensures
        vec_views(parts@) == comma_parts(v@, 0, 0),
        parts@.len() >= 1,
{
    let mut parts: Vec<Vec<char>> = Vec::new();
    let mut from: usize = 0;
    let mut i: usize = 0;
    assert(vec_views(parts@) + comma_parts(v@, 0, 0) =~= comma_parts(v@, 0, 0));
    while i < v.len()
        invariant
            from <= i <= v.len(),
            vec_views(parts@) + comma_parts(v@, from as int, i as int) == comma_parts(v@, 0, 0),
        decreases v.len() - i,
    {
        if v[i] == ',' {
            let ghost done = vec_views(parts@);
            let p = part(v, from, i);
            parts.push(p);
            proof {
                assert(vec_views(parts@) =~= done + seq![v@.subrange(from as int, i as int)]);
                assert(done + (seq![v@.subrange(from as int, i as int)] + comma_parts(
                    v@,
                    i + 1,
                    i + 1,
                )) =~= (done + seq![v@.subrange(from as int, i as int)]) + comma_parts(
                    v@,
                    i + 1,
                    i + 1,
                ));
            }
            from = i + 1;
        }
        i = i + 1;
    }
    let ghost done = vec_views(parts@);
    parts.push(part(v, from, v.len()));
    proof {
        assert(vec_views(parts@) =~= done + seq![v@.subrange(from as int, v@.len() as int)]);
    }
    parts
}

/// The numbers among the first `k` words, in order: the words that are no
/// 32-bit numbers are passed over.
pub open spec fn numbers_in(words: Seq<Seq<char>>, k: nat) -> Seq<i32>
    decreases k,
{
    if k == 0 || k > words.len() {
        Seq::empty()
    } else {
        numbers_in(words, (k - 1) as nat) + match parsed_int(
            words[k - 1],
            true,
            i32::MIN as int,
            i32::MAX as int,
        ) {
            Some(n) => seq![n as i32],
            None => Seq::<i32>::empty(),
        }
    }
}

/// The two numbers of a text, if it holds exactly two.
pub open spec fn pair_in(text: Seq<char>) -> Option<(i32, i32)> {
    let words = words_at(text, 0, Seq::empty());
    let ns = numbers_in(words, words.len());
    if ns.len() == 2 {
        Some((ns[0], ns[1]))
    } else {
        None
    }
}

fn number_pair(v: &Vec<char>, from: usize) -> (r: Option<(i32, i32)>)
    requires
        from <= v.len(),
    ensures
        r == pair_in(v@.subrange(from as int, v@.len() as int)),
{
    let words = split_words(v, from, v.len());
    let ghost views = vec_views(words@);
    let mut ns: Vec<i32> = Vec::new();
    let mut i: usize = 0;
    assert(ns@ =~= numbers_in(views, 0));
    while i < words.len()
        invariant
            i <= words.len(),
            views == vec_views(words@),
            ns@ == numbers_in(views, i as nat),
        decreases words.len() - i,
    {
        let ghost before = ns@;
        assert(views[i as int] == words@[i as int]@);
        match parse_int(&words[i], true, -0x8000_0000, 0x7FFF_FFFF) {
            Some(n) => {
                ns.push(n as i32);
                assert(ns@ =~= before + seq![n as i32]);
            },
            None => {
                assert(ns@ =~= before + Seq::<i32>::empty());
            },
        }
        i = i + 1;
    }
    if ns.len() == 2 {
        Some((ns[0], ns[1]))
    } else {
        None
    }
}

/// Size and position that the first `k` parts of a window rule give,
/// counting from the third part: a part `size W H` sets the size, a part
/// `pos X Y` the position, each only if it holds exactly two numbers; a
/// later part overrides an earlier one.
pub open spec fn rule_extras(parts: Seq<Seq<char>>, k: nat) -> (Option<(i32, i32)>, Option<(i32, i32)>)
    decreases k,
{
    if k <= 2 || k > parts.len() {
        (None, None)
    } else {
        let before = rule_extras(parts, (k - 1) as nat);
        let p = trimmed(parts[k - 1]);
        if occurs_at(p, "size "@, 0) {
            match pair_in(p.subrange("size "@.len() as int, p.len() as int)) {
                Some(pair) => (Some(pair), before.1),
                None => before,
            }
        } else if occurs_at(p, "pos "@, 0) {
            match pair_in(p.subrange("pos "@.len() as int, p.len() as int)) {
                Some(pair) => (before.0, Some(pair)),
                None => before,
            }
        } else {
            before
        }
    }
}

pub open spec fn pair_array(p: Option<(i32, i32)>, a: Option<[i32; 2]>) -> bool {
    match p {
        Some(pair) => a matches Some(arr) && arr[0] == pair.0 && arr[1] == pair.1,
        None => a is None,
    }
}

/// A window rule `action, matcher[, size W H][, pos X Y]`: it floats the
/// windows it is for if the action is `float` or `floating`, and is for
/// the windows whose application id holds the matcher. A line without a
/// comma is no rule.
pub fn parse_windowrule(value: &str) -> (r: Option<WindowRule>)
    ensures
        ({
            let parts = comma_parts(value@, 0, 0);
            if parts.len() < 2 {
                r is None
            } else {
                r matches Some(rule) && {
                    &&& rule.floating == (lowercased(trimmed(parts[0])) == "float"@ || lowercased(
                        trimmed(parts[0]),
                    ) == "floating"@)
                    &&& match rule.app_id {
                        Some(m) => m@ == trimmed(parts[1]) && m@.len() > 0,
                        None => trimmed(parts[1]).len() == 0,
                    }
                    &&& rule.title is None
                    &&& pair_array(rule_extras(parts, parts.len()).0, rule.size)
                    &&& pair_array(rule_extras(parts, parts.len()).1, rule.position)
                }
            }
        }),
{
    let v = chars_of(value);
    let parts = split_commas(&v);
    let ghost views = comma_parts(value@, 0, 0);
    if parts.len() < 2 {
        return None;
    }
    assert(views[0] == parts@[0]@ && views[1] == parts@[1]@);
    let action = lower_vec(&trim_vec(&parts[0]));
    let floating: bool = is_text(&action, "float") || is_text(&action, "floating");
    let matcher = trim_vec(&parts[1]);
    let app_id: Option<String> = if matcher.len() == 0 { None } else { Some(text_of(&matcher)) };
    let mut size: Option<(i32, i32)> = None;
    let mut position: Option<(i32, i32)> = None;
    let size_word = chars_of("size ");
    let pos_word = chars_of("pos ");
    let mut k: usize = 2;
    while k < parts.len()
        invariant
            2 <= k <= parts.len(),
            views == vec_views(parts@),
            size_word@ == "size "@,
            pos_word@ == "pos "@,
            (size, position) == rule_extras(views, k as nat),
        decreases parts.len() - k,
    {
        assert(views[k as int] == parts@[k as int]@);
        let p = trim_vec(&parts[k]);
        if matches_at(&p, &size_word, 0) {
            match number_pair(&p, size_word.len()) {
                Some(pair) => {
                    size = Some(pair);
                },
                None => {},
            }
        } else if matches_at(&p, &pos_word, 0) {
            match number_pair(&p, pos_word.len()) {
                Some(pair) => {
                    position = Some(pair);
                },
                None => {},
            }
        }
        k = k + 1;
    }
    Some(
        WindowRule {
            app_id,
            title: None,
            floating,
            size: match size {
                Some(p) => Some([p.0, p.1]),
                None => None,
            },
            position: match position {
                Some(p) => Some([p.0, p.1]),
                None => None,
            },
        },
    )
}

/// The modifier that a text names: `alt`, `ctrl` or `control`; anything
/// else is the super key.
pub open spec fn parse_modifier_spec(s: Seq<char>) -> Modifier {
    modifier_word(lowercased(trimmed(s)))
}

/// The modifier that a word in lower case names.
pub open spec fn modifier_word(t: Seq<char>) -> Modifier {
    if t == "alt"@ {
        Modifier::Alt
    } else if t == "ctrl"@ || t == "control"@ {
        Modifier::Ctrl
    } else {
        Modifier::Super
    }
}

/// The modifier that a word names; the word is taken as it stands.
pub fn modifier_of_word(word: &str) -> (m: Modifier)
    ensures
        m == modifier_word(word@),
{
    if str_eq(word, "alt") {
        Modifier::Alt
    } else if str_eq(word, "ctrl") || str_eq(word, "control") {
        Modifier::Ctrl
    } else {
        Modifier::Super
    }
}

/// A number of 32 bits without sign that a text holds, white space around
/// it aside.
pub open spec fn parse_u32_spec(s: Seq<char>) -> Option<u32> {
    match parsed_int(trimmed(s), false, 0, u32::MAX as int) {
        Some(n) => Some(n as u32),
        None => None,
    }
}

fn parse_u32(s: &str) -> (r: Option<u32>)
    ensures
        r == parse_u32_spec(s@),
{
    match parse_int(&trim_vec(&chars_of(s)), false, 0, 0xFFFF_FFFF) {
        Some(n) => Some(n as u32),
        None => None,
    }
}

pub struct KeyboardView {
    pub layout: Option<Seq<char>>,
    pub variant: Option<Seq<char>>,
    pub options: Option<Seq<char>>,
    pub repeat_delay: u32,
    pub repeat_rate: u32,
    pub modifier: Modifier,
}

pub open spec fn text_view(s: Option<String>) -> Option<Seq<char>> {
    match s {
        Some(t) => Some(t@),
        None => None,
    }
}

impl View for KeyboardConfig {
    type V = KeyboardView;

    open spec fn view(&self) -> KeyboardView {
        KeyboardView {
            layout: text_view(self.layout),
            variant: text_view(self.variant),
            options: text_view(self.options),
            repeat_delay: self.repeat_delay,
            repeat_rate: self.repeat_rate,
            modifier: self.modifier,
        }
    }
}

/// The keyboard settings after one `key = value` line, and whether the
/// line was taken: not if the key is unknown or the value is no number
/// where one is asked for.
pub open spec fn apply_keyboard_spec(key: Seq<char>, value: Seq<char>, k: KeyboardView) -> (
    KeyboardView,
    bool,
) {
    if key == "layout"@ {
        (KeyboardView { layout: Some(value), ..k }, true)
    } else if key == "variant"@ {
        (KeyboardView { variant: Some(value), ..k }, true)
    } else if key == "options"@ {
        (KeyboardView { options: Some(value), ..k }, true)
    } else if key == "repeat_delay"@ {
        match parse_u32_spec(value) {
            Some(n) => (KeyboardView { repeat_delay: n, ..k }, true),
            None => (k, false),
        }
    } else if key == "repeat_rate"@ {
        match parse_u32_spec(value) {
            Some(n) => (KeyboardView { repeat_rate: n, ..k }, true),
            None => (k, false),
        }
    } else if key == "modifier"@ {
        (KeyboardView { modifier: parse_modifier_spec(value), ..k }, true)
    } else {
        (k, false)
    }
}

/// Take one `key = value` line of the keyboard section. Returns false if
/// the line was not taken; nothing changes then.
pub fn apply_keyboard(key: &str, value: &str, k: &mut KeyboardConfig) -> (ok: bool)
    ensures
        final(k)@ == apply_keyboard_spec(key@, value@, old(k)@).0,
        ok == apply_keyboard_spec(key@, value@, old(k)@).1,
{
    let key = chars_of(key);
    if is_text(&key, "layout") {
        k.layout = Some(value.to_owned());
        true
    } else if is_text(&key, "variant") {
        k.variant = Some(value.to_owned());
        true
    } else if is_text(&key, "options") {
        k.options = Some(value.to_owned());
        true
    } else if is_text(&key, "repeat_delay") {
        match parse_u32(value) {
            Some(n) => {
                k.repeat_delay = n;
                true
            },
            None => false,
        }
    } else if is_text(&key, "repeat_rate") {
        match parse_u32(value) {
            Some(n) => {
                k.repeat_rate = n;
                true
            },
            None => false,
        }
    } else if is_text(&key, "modifier") {
        k.modifier = modifier_of_word(lower_trimmed(value).as_str());
        true
    } else {
        false
    }
}

/// What one line of a configuration file asks for.
#[derive(Debug, Clone, PartialEq, Eq)]
pub enum LineStep {
    /// Nothing to apply: a blank line, or a section was opened or closed.
    Nothing,
    /// A `}` with no section open.
    UnexpectedClose,
    /// A line that is neither a section mark nor `key = value`.
    NotAPair(String),
    /// `source = path` outside any section: read that file next.
    Source(String),
    /// A setting of the innermost open section.
    Setting { section: String, key: String, value: String },
}

pub enum LineStepView {
    Nothing,
    UnexpectedClose,
    NotAPair(Seq<char>),
    Source(Seq<char>),
    Setting { section: Seq<char>, key: Seq<char>, value: Seq<char> },
}

impl View for LineStep {
    type V = LineStepView;

    open spec fn view(&self) -> LineStepView {
        match *self {
            LineStep::Nothing => LineStepView::Nothing,
            LineStep::UnexpectedClose => LineStepView::UnexpectedClose,
            LineStep::NotAPair(line) => LineStepView::NotAPair(line@),
            LineStep::Source(path) => LineStepView::Source(path@),
            LineStep::Setting { section, key, value } => LineStepView::Setting {
                section: section@,
                key: key@,
                value: value@,
            },
        }
    }
}

/// Where the run of `{` that ends `s[..to]` starts.
pub open spec fn braces_start(s: Seq<char>, to: int) -> int
    decreases to,
{
    if 0 < to <= s.len() && s[to - 1] == '{' {
        braces_start(s, to - 1)
    } else {
        to
    }
}

/// The innermost open section; the empty name if none is open.
pub open spec fn current_section(sections: Seq<Seq<char>>) -> Seq<char> {
    if sections.len() == 0 {
        Seq::empty()
    } else {
        sections.last()
    }
}

/// The open sections after a line, and what the line asks for. The line is
/// read without its comment and the white space around it. A line that
/// ends in `{` opens the section named before the braces, in lower case;
/// a lone `}` closes the innermost one.
pub open spec fn line_step_spec(sections: Seq<Seq<char>>, raw: Seq<char>) -> (
    Seq<Seq<char>>,
    LineStepView,
) {
    let line = trimmed(raw.subrange(0, comment_start(raw)));
    if line.len() == 0 {
        (sections, LineStepView::Nothing)
    } else if line.last() == '{' {
        let name = lowercased(trimmed_part(line, 0, braces_start(line, line.len() as int)));
        (sections.push(name), LineStepView::Nothing)
    } else if line.len() == 1 && line[0] == '}' {
        if sections.len() == 0 {
            (sections, LineStepView::UnexpectedClose)
        } else {
            (sections.drop_last(), LineStepView::Nothing)
        }
    } else {
        match split_kv_spec(line) {
            None => (sections, LineStepView::NotAPair(line)),
            Some(kv) => if kv.0 == "source"@ && current_section(sections).len() == 0 {
                (sections, LineStepView::Source(kv.1))
            } else {
                (
                    sections,
                    LineStepView::Setting { section: current_section(sections), key: kv.0, value: kv.1 },
                )
            },
        }
    }
}

fn innermost(sections: &Vec<String>) -> (name: String)
    ensures
        name@ == current_section(string_views(sections@)),
{
    if sections.len() == 0 {
        String::new()
    } else {
        sections[sections.len() - 1].as_str().to_owned()
    }
}

/// Read one line of a configuration file against the open sections.
pub fn line_step(sections: &mut Vec<String>, raw: &str) -> (step: LineStep)
    ensures
        string_views(final(sections)@) == line_step_spec(string_views(old(sections)@), raw@).0,
        step@ == line_step_spec(string_views(old(sections)@), raw@).1,
{
    let line = trim_chars(strip_comment(raw));
    let n: usize = line.len();
    if n == 0 {
        return LineStep::Nothing;
    }
    if line[n - 1] == '{' {
        let mut end: usize = n;
        while end > 0 && line[end - 1] == '{'
            invariant
                end <= n,
                n == line@.len(),
                braces_start(line@, n as int) == braces_start(line@, end as int),
            decreases end,
        {
            end = end - 1;
        }
        let (a, b) = trim_range(&line, 0, end);
        let name = lowercase(string_of(&line, a, b).as_str());
        sections.push(name);
        proof {
            assert(string_views(sections@) =~= string_views(old(sections)@).push(name@));
        }
        return LineStep::Nothing;
    }
    if n == 1 && line[0] == '}' {
        if sections.len() == 0 {
            return LineStep::UnexpectedClose;
        }
        sections.pop();
        proof {
            assert(string_views(sections@) =~= string_views(old(sections)@).drop_last());
        }
        return LineStep::Nothing;
    }
    let text = text_of(&line);
    match split_kv(text.as_str()) {
        None => LineStep::NotAPair(text),
        Some((key, value)) => {
            let section = innermost(sections);
            if str_eq(key.as_str(), "source") && section.as_str().unicode_len() == 0 {
                LineStep::Source(value)
            } else {
                LineStep::Setting { section, key, value }
            }
        },
    }
}

/// `s` with a leading `~` replaced by `home`.
pub open spec fn tilde_expanded(s: Seq<char>, home: Seq<char>) -> Seq<char> {
    if s.len() > 0 && s[0] == '~' {
        home + s.subrange(1, s.len() as int)
    } else {
        s
    }
}

/// The program and arguments that start the terminal: the words of the
/// configured command line, each with a leading `~` expanded. A command
/// line without a word stands for `kitty`.
pub fn terminal_cmd(terminal: &str, home: &str) -> (r: (String, Vec<String>))
    ensures
        ({
            let words = shell_words_spec(terminal@);
            if words.len() == 0 {
                r.0@ == "kitty"@ && r.1@.len() == 0
            } else {
                &&& r.0@ == tilde_expanded(words[0], home@)
                &&& r.1@.len() == words.len() - 1
                &&& forall|i: int|
                    0 <= i < r.1@.len() ==> (#[trigger] r.1@[i])@ == tilde_expanded(
                        words[i + 1],
                        home@,
                    )
            }
        }),
{
    let words = shell_words(terminal);
    let ghost texts = shell_words_spec(terminal@);
    let n: usize = words.len();
    assert(n == texts.len());
    if n == 0 {
        return ("kitty".to_owned(), Vec::new());
    }
    assert(words@[0]@ == string_views(words@)[0]);
    let bin = expand_tilde(words[0].as_str(), home);
    let mut args: Vec<String> = Vec::new();
    let mut i: usize = 1;
    while i < n
        invariant
            1 <= i <= n,
            n == words@.len(),
            string_views(words@) == texts,
            args@.len() == i - 1,
            forall|j: int|
                0 <= j < args@.len() ==> (#[trigger] args@[j])@ == tilde_expanded(
                    texts[j + 1],
                    home@,
                ),
        decreases n - i,
    {
        assert(words@[i as int]@ == string_views(words@)[i as int]);
        args.push(expand_tilde(words[i].as_str(), home));
        i = i + 1;
    }
    (bin, args)
}

/// The first rule at or after `from` that is for a window with this
/// application id and title, or the number of rules if none is.
pub open spec fn rule_for(rules: Seq<WindowRule>, app_id: Seq<char>, title: Seq<char>, from: int) -> int
    decreases rules.len() - from,
{
    if from < 0 || from >= rules.len() {
        rules.len() as int
    } else if rules[from].matches_spec(app_id, title) {
        from
    } else {
        rule_for(rules, app_id, title, from + 1)
    }
}

/// The first rule that is for the window, if there is one.
pub fn find_rule(rules: &Vec<WindowRule>, app_id: &str, title: &str) -> (r: Option<usize>)
    ensures
        match r {
            Some(i) => i < rules@.len() && i == rule_for(rules@, app_id@, title@, 0),
            None => rule_for(rules@, app_id@, title@, 0) == rules@.len(),
        },
{
    let mut i: usize = 0;
    while i < rules.len()
        invariant
            i <= rules@.len(),
            rule_for(rules@, app_id@, title@, 0) == rule_for(rules@, app_id@, title@, i as int),
        decreases rules@.len() - i,
    {
        if rules[i].matches(app_id, title) {
            return Some(i);
        }
        i = i + 1;
    }
    None
}

/// Half of `v`, rounded toward zero.
pub open spec fn half(v: int) -> int {
    if v >= 0 {
        v / 2
    } else {
        -((-v) / 2)
    }
}

/// The size that a floating rule gives its window: 640 by 480 unless the
/// rule names one.
pub open spec fn floating_size(rule: WindowRule) -> (i32, i32) {
    match rule.size {
        Some(s) => (s[0], s[1]),
        None => (640, 480),
    }
}

/// Where a window of extent `size` begins when it is centred on an output
/// that begins at `lo` and is `extent` long.
pub open spec fn centred(lo: int, extent: int, size: int) -> int {
    lo + half(extent - size)
}

/// The place of the rule's window on the output is within the coordinate
/// range: always, unless the rule makes its window float and gives no
/// position, in which case the window is centred.
pub open spec fn placeable(rule: WindowRule, out_x: i32, out_y: i32, out_w: i32, out_h: i32) -> bool {
    rule.floating && rule.position is None ==> {
        &&& i32::MIN <= centred(out_x as int, out_w as int, floating_size(rule).0 as int)
            <= i32::MAX
        &&& i32::MIN <= centred(out_y as int, out_h as int, floating_size(rule).1 as int)
            <= i32::MAX
    }
}

fn centre_fits(lo: i32, extent: i32, size: i32) -> (b: bool)
    ensures
        b == (i32::MIN <= centred(lo as int, extent as int, size as int) <= i32::MAX),
{
    let room: i64 = extent as i64 - size as i64;
    let h: i64 = if room >= 0 {
        room / 2
    } else {
        -((-room) / 2)
    };
    let c: i64 = lo as i64 + h;
    -0x8000_0000 <= c && c <= 0x7FFF_FFFF
}

/// Whether the rule's window can be placed on the output.
pub fn can_place(rule: &WindowRule, out_x: i32, out_y: i32, out_w: i32, out_h: i32) -> (b: bool)
    ensures
        b == placeable(*rule, out_x, out_y, out_w, out_h),
{
    if !rule.floating || rule.position.is_some() {
        return true;
    }
    let size: (i32, i32) = match rule.size {
        Some(s) => (s[0], s[1]),
        None => (640, 480),
    };
    centre_fits(out_x, out_w, size.0) && centre_fits(out_y, out_h, size.1)
}

/// The marker of a window that a rule makes floating: the rule's size and
/// position; without a position the window is centred on the output.
/// None for a rule that does not make its window float.
pub fn floating_marker(rule: &WindowRule, out_x: i32, out_y: i32, out_w: i32, out_h: i32) -> (r:
    Option<FloatingMarker>)
    requires
        placeable(*rule, out_x, out_y, out_w, out_h),
    ensures
        r is Some <==> rule.floating,
        r matches Some(m) ==> {
            &&& m.size == Some(floating_size(*rule))
            &&& match rule.position {
                Some(p) => m.position == Some((p[0], p[1])),
                None => m.position matches Some(at) && at.0 == centred(
                    out_x as int,
                    out_w as int,
                    floating_size(*rule).0 as int,
                ) && at.1 == centred(out_y as int, out_h as int, floating_size(*rule).1 as int),
            }
        },
{
    if !rule.floating {
        return None;
    }
    let size: (i32, i32) = match rule.size {
        Some(s) => (s[0], s[1]),
        None => (640, 480),
    };
    let position: (i32, i32) = match rule.position {
        Some(p) => (p[0], p[1]),
        None => (centre(out_x, out_w, size.0), centre(out_y, out_h, size.1)),
    };
    Some(FloatingMarker { size: Some(size), position: Some(position) })
}

fn centre(lo: i32, extent: i32, size: i32) -> (c: i32)
    requires
        i32::MIN <= centred(lo as int, extent as int, size as int) <= i32::MAX,
    ensures
        c == centred(lo as int, extent as int, size as int),
{
    let room: i64 = extent as i64 - size as i64;
    let h: i64 = if room >= 0 {
        room / 2
    } else {
        -((-room) / 2)
    };
    (lo as i64 + h) as i32
}

/// What a `key = value` line sets.
#[derive(Debug, Clone, Copy, PartialEq, Eq, Structural)]
pub enum SettingKey {
    Bind,
    WindowRule,
    Exec,
    ExecOnce,
    Terminal,
    SeatName,
    BackgroundColor,
    TargetHz,
    Vsync,
    VibranceEnabled,
    VibranceStrength,
    VibranceBalance,
    /// A line of the keyboard section: `apply_keyboard` takes it.
    Keyboard,
    /// The section is known, the key is not.
    UnknownKey,
    UnknownSection,
}

/// The settings that both the top level and the section `general` hold.
pub open spec fn general_key(key: Seq<char>) -> Option<SettingKey> {
    if key == "terminal"@ {
        Some(SettingKey::Terminal)
    } else if key == "seat_name"@ {
        Some(SettingKey::SeatName)
    } else if key == "background_color"@ {
        Some(SettingKey::BackgroundColor)
    } else if key == "target_hz"@ {
        Some(SettingKey::TargetHz)
    } else if key == "vsync"@ {
        Some(SettingKey::Vsync)
    } else {
        None
    }
}

/// What the key `key` sets in the section `section`, the top level being
/// the section without a name. Bindings, window rules and commands stand
/// at the top level only; `general` also takes `target_hs` for the rate.
pub open spec fn setting_key_spec(section: Seq<char>, key: Seq<char>) -> SettingKey {
    if section.len() == 0 {
        if key == "bind"@ {
            SettingKey::Bind
        } else if key == "windowrule"@ {
            SettingKey::WindowRule
        } else if key == "exec"@ {
            SettingKey::Exec
        } else if key == "exec_once"@ {
            SettingKey::ExecOnce
        } else {
            match general_key(key) {
                Some(k) => k,
                None => SettingKey::UnknownKey,
            }
        }
    } else if section == "general"@ {
        if key == "target_hs"@ {
            SettingKey::TargetHz
        } else {
            match general_key(key) {
                Some(k) => k,
                None => SettingKey::UnknownKey,
            }
        }
    } else if section == "vibrance"@ {
        if key == "enabled"@ {
            SettingKey::VibranceEnabled
        } else if key == "strength"@ {
            SettingKey::VibranceStrength
        } else if key == "balance"@ {
            SettingKey::VibranceBalance
        } else {
            SettingKey::UnknownKey
        }
    } else if section == "keyboard"@ {
        SettingKey::Keyboard
    } else {
        SettingKey::UnknownSection
    }
}

fn general_setting(key: &str) -> (r: Option<SettingKey>)
    ensures
        r == general_key(key@),
{
    if str_eq(key, "terminal") {
        Some(SettingKey::Terminal)
    } else if str_eq(key, "seat_name") {
        Some(SettingKey::SeatName)
    } else if str_eq(key, "background_color") {
        Some(SettingKey::BackgroundColor)
    } else if str_eq(key, "target_hz") {
        Some(SettingKey::TargetHz)
    } else if str_eq(key, "vsync") {
        Some(SettingKey::Vsync)
    } else {
        None
    }
}

pub fn setting_key(section: &str, key: &str) -> (k: SettingKey)
    ensures
        k == setting_key_spec(section@, key@),
{
    if section.unicode_len() == 0 {
        if str_eq(key, "bind") {
            SettingKey::Bind
        } else if str_eq(key, "windowrule") {
            SettingKey::WindowRule
        } else if str_eq(key, "exec") {
            SettingKey::Exec
        } else if str_eq(key, "exec_once") {
            SettingKey::ExecOnce
        } else {
            match general_setting(key) {
                Some(k) => k,
                None => SettingKey::UnknownKey,
            }
        }
    } else if str_eq(section, "general") {
        if str_eq(key, "target_hs") {
            SettingKey::TargetHz
        } else {
            match general_setting(key) {
                Some(k) => k,
                None => SettingKey::UnknownKey,
            }
        }
    } else if str_eq(section, "vibrance") {
        if str_eq(key, "enabled") {
            SettingKey::VibranceEnabled
        } else if str_eq(key, "strength") {
            SettingKey::VibranceStrength
        } else if str_eq(key, "balance") {
            SettingKey::VibranceBalance
        } else {
            SettingKey::UnknownKey
        }
    } else if str_eq(section, "keyboard") {
        SettingKey::Keyboard
    } else {
        SettingKey::UnknownSection
    }
}

/// The refresh rate that a text names: a whole number of 64 bits without
/// sign, white space around it aside.
pub fn parse_hz(value: &str) -> (r: Option<u64>)
    ensures
        match parsed_int(trimmed(value@), false, 0, u64::MAX as int) {
            Some(n) => r == Some(n as u64),
            None => r is None,
        },
{
    parse_u64(&trim_vec(&chars_of(value)))
}

} // verus!

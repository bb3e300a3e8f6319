//! Parsing helpers for configuration text: shell-style word splitting,
//! comment stripping and hexadecimal colours.

use crate::text::{
    ascii_lower, ascii_lowered, chars_of, find_chars, is_white, is_whitespace, occurs_at,
    push_chars, string_of,
};
use vstd::prelude::*;

verus! {

// ── shell-style word splitter ────────────────────────────────────────────────

/// Position just behind the single-quoted text that starts at `i`: behind
/// the closing quote, or the end of the input if there is none.
pub open spec fn single_quoted_end(s: Seq<char>, i: int) -> int
    decreases s.len() - i,
{
    if i < 0 || i >= s.len() {
        s.len() as int
    } else if s[i] == '\'' {
        i + 1
    } else {
        single_quoted_end(s, i + 1)
    }
}

/// The single-quoted text that starts at `i`: everything up to the closing
/// quote, taken as it stands.
pub open spec fn single_quoted(s: Seq<char>, i: int) -> Seq<char>
    decreases s.len() - i,
{
    if i < 0 || i >= s.len() || s[i] == '\'' {
        Seq::empty()
    } else {
        seq![s[i]] + single_quoted(s, i + 1)
    }
}

/// Position just behind the double-quoted text that starts at `i`.
pub open spec fn double_quoted_end(s: Seq<char>, i: int) -> int
    decreases s.len() - i,
{
    if i < 0 || i >= s.len() {
        s.len() as int
    } else if s[i] == '"' {
        i + 1
    } else if s[i] == '\\' && i + 1 < s.len() {
        double_quoted_end(s, i + 2)
    } else {
        double_quoted_end(s, i + 1)
    }
}

/// The double-quoted text that starts at `i`: everything up to the closing
/// quote, where a backslash makes the next character an ordinary one.
pub open spec fn double_quoted(s: Seq<char>, i: int) -> Seq<char>
    decreases s.len() - i,
{
    if i < 0 || i >= s.len() || s[i] == '"' {
        Seq::empty()
    } else if s[i] == '\\' {
        if i + 1 < s.len() {
            seq![s[i + 1]] + double_quoted(s, i + 2)
        } else {
            double_quoted(s, i + 1)
        }
    } else {
        seq![s[i]] + double_quoted(s, i + 1)
    }
}

/// The words of `s` from position `i` on, where `cur` is the part of the
/// current word that was read before `i`. Blanks and tabs end a word;
/// quoted text and escaped characters belong to the word they stand in; a
/// word is only counted if it is not empty.
pub open spec fn words_from(s: Seq<char>, i: int, cur: Seq<char>) -> Seq<Seq<char>>
    decreases s.len() - i,
{
    if i < 0 || i >= s.len() {
        if cur.len() > 0 {
            seq![cur]
        } else {
            Seq::empty()
        }
    } else if s[i] == ' ' || s[i] == '\t' {
        if cur.len() == 0 {
            words_from(s, i + 1, cur)
        } else {
            seq![cur] + words_from(s, i + 1, Seq::empty())
        }
    } else if s[i] == '\'' {
        if i < single_quoted_end(s, i + 1) <= s.len() {
            words_from(s, single_quoted_end(s, i + 1), cur + single_quoted(s, i + 1))
        } else {
            Seq::empty()
        }
    } else if s[i] == '"' {
        if i < double_quoted_end(s, i + 1) <= s.len() {
            words_from(s, double_quoted_end(s, i + 1), cur + double_quoted(s, i + 1))
        } else {
            Seq::empty()
        }
    } else if s[i] == '\\' {
        if i + 1 < s.len() {
            words_from(s, i + 2, cur.push(s[i + 1]))
        } else {
            words_from(s, i + 1, cur)
        }
    } else {
        words_from(s, i + 1, cur.push(s[i]))
    }
}

/// The words of a command line.
pub open spec fn shell_words_spec(s: Seq<char>) -> Seq<Seq<char>> {
    words_from(s, 0, Seq::empty())
}

proof fn lemma_quoted_ends(s: Seq<char>, i: int)
    requires
        0 <= i <= s.len(),
    ensures
        i <= single_quoted_end(s, i) <= s.len(),
        i <= double_quoted_end(s, i) <= s.len(),
        i < s.len() ==> i < single_quoted_end(s, i) && i < double_quoted_end(s, i),
    decreases s.len() - i,
{
    if i < s.len() {
        lemma_quoted_ends(s, i + 1);
        if i + 2 <= s.len() {
            lemma_quoted_ends(s, i + 2);
        }
    }
}

/// The views of a list of strings.
pub open spec fn string_views(v: Seq<String>) -> Seq<Seq<char>> {
    Seq::new(v.len(), |i: int| v[i]@)
}

fn take_word(cur: &mut Vec<char>) -> (w: String)
    ensures
        w@ == old(cur)@,
        final(cur)@.len() == 0,
{
    let w = string_of(cur, 0, cur.len());
    assert(cur@.subrange(0, cur@.len() as int) =~= cur@);
    cur.clear();
    w
}

/// Split a command line into words the way a shell does: at blanks and
/// tabs, but not inside single or double quotes or behind a backslash.
/// Nothing is expanded.
pub fn shell_words(s: &str) -> (words: Vec<String>)
    ensures
        string_views(words@) == shell_words_spec(s@),
{
    let v = chars_of(s);
    let n: usize = v.len();
    let mut words: Vec<String> = Vec::new();
    let mut cur: Vec<char> = Vec::new();
    let mut i: usize = 0;
    assert(string_views(words@) + words_from(v@, 0, cur@) =~= shell_words_spec(s@));
    while i < n
        invariant
            i <= n,
            n == v@.len(),
            v@ == s@,
            string_views(words@) + words_from(v@, i as int, cur@) == shell_words_spec(s@),
        decreases n - i,
    {
        let c: char = v[i];
        let ghost done = string_views(words@);
        if c == ' ' || c == '\t' {
            if cur.len() > 0 {
                let ghost word = cur@;
                let w = take_word(&mut cur);
                words.push(w);
                proof {
                    assert(cur@ =~= Seq::<char>::empty());
                    assert(string_views(words@) =~= done + seq![word]);
                    assert(done + (seq![word] + words_from(v@, i + 1, Seq::empty())) =~= (done
                        + seq![word]) + words_from(v@, i + 1, Seq::empty()));
                }
            }
            i = i + 1;
        } else if c == '\'' {
            proof {
                lemma_quoted_ends(v@, i + 1);
            }
            let ghost before = cur@;
            let mut j: usize = i + 1;
            while j < n && v[j] != '\''
                invariant
                    i < j <= n,
                    n == v@.len(),
                    single_quoted_end(v@, i + 1) == single_quoted_end(v@, j as int),
                    before + single_quoted(v@, i + 1) == cur@ + single_quoted(v@, j as int),
                decreases n - j,
            {
                let ghost rest = single_quoted(v@, j + 1);
                cur.push(v[j]);
                proof {
                    assert(cur@ + rest =~= cur@.drop_last() + (seq![v@[j as int]] + rest));
                }
                j = j + 1;
            }
            proof {
                assert(cur@ + single_quoted(v@, j as int) =~= cur@);
            }
            i = if j < n { j + 1 } else { n };
        } else if c == '"' {
            proof {
                lemma_quoted_ends(v@, i + 1);
            }
            let ghost before = cur@;
            let mut j: usize = i + 1;
            while j < n && v[j] != '"'
                invariant
                    i < j <= n,
                    n == v@.len(),
                    double_quoted_end(v@, i + 1) == double_quoted_end(v@, j as int),
                    before + double_quoted(v@, i + 1) == cur@ + double_quoted(v@, j as int),
                decreases n - j,
            {
                if v[j] == '\\' {
                    if j + 1 < n {
                        let ghost rest = double_quoted(v@, j + 2);
                        cur.push(v[j + 1]);
                        proof {
                            assert(cur@ + rest =~= cur@.drop_last() + (seq![v@[j + 1]] + rest));
                        }
                        j = j + 2;
                    } else {
                        j = j + 1;
                    }
                } else {
                    let ghost rest = double_quoted(v@, j + 1);
                    cur.push(v[j]);
                    proof {
                        assert(cur@ + rest =~= cur@.drop_last() + (seq![v@[j as int]] + rest));
                    }
                    j = j + 1;
                }
            }
            proof {
                assert(cur@ + double_quoted(v@, j as int) =~= cur@);
            }
            i = if j < n { j + 1 } else { n };
        } else if c == '\\' {
            if i + 1 < n {
                cur.push(v[i + 1]);
                i = i + 2;
            } else {
                i = i + 1;
            }
        } else {
            cur.push(c);
            i = i + 1;
        }
    }
    if cur.len() > 0 {
        let ghost done = string_views(words@);
        let ghost word = cur@;
        let w = take_word(&mut cur);
        words.push(w);
        proof {
            assert(string_views(words@) =~= done + seq![word]);
        }
    } else {
        proof {
            assert(string_views(words@) + Seq::<Seq<char>>::empty() =~= string_views(words@));
        }
    }
    words
}

// ── comment stripper ─────────────────────────────────────────────────────────

/// ASCII white space.
pub open spec fn is_blank(c: char) -> bool {
    c == ' ' || c == '\t' || c == '\n' || c == '\x0C' || c == '\r'
}

/// A `#` at position `i` starts a comment: it stands at the start of the
/// line or behind white space.
pub open spec fn starts_comment(line: Seq<char>, i: int) -> bool {
    line[i] == '#' && (i == 0 || is_blank(line[i - 1]))
}

/// Position of the first `=` from `i` on, or the line's length.
pub open spec fn find_equals(line: Seq<char>, i: int) -> int
    decreases line.len() - i,
{
    if i < 0 || i >= line.len() {
        line.len() as int
    } else if line[i] == '=' {
        i
    } else {
        find_equals(line, i + 1)
    }
}

/// Position of the first comment start in `[i, upto)`, or `upto`.
pub open spec fn find_comment(line: Seq<char>, i: int, upto: int) -> int
    decreases upto - i,
{
    if i < 0 || i >= upto {
        upto
    } else if starts_comment(line, i) {
        i
    } else {
        find_comment(line, i + 1, upto)
    }
}

/// Where the comment of a value starts, scanning from `i`: at the first `#`
/// that stands behind something other than white space. `seen` says that
/// the value has begun. A `#` that begins the value belongs to it: it
/// starts a colour.
pub open spec fn find_value_comment(line: Seq<char>, i: int, seen: bool) -> int
    decreases line.len() - i,
{
    if i < 0 || i >= line.len() {
        line.len() as int
    } else if line[i] == '#' {
        if seen {
            i
        } else {
            find_value_comment(line, i + 1, true)
        }
    } else if is_blank(line[i]) {
        find_value_comment(line, i + 1, seen)
    } else {
        find_value_comment(line, i + 1, true)
    }
}

/// Length of a line without its comment. In a `key = value` line a comment
/// can start within the key, or in the value behind its first word; in any
/// other line it starts at the first `#` at the start or behind white space.
pub open spec fn comment_start(line: Seq<char>) -> int {
    let eq = find_equals(line, 0);
    if eq < line.len() {
        if find_comment(line, 0, eq) < eq {
            find_comment(line, 0, eq)
        } else {
            find_value_comment(line, eq + 1, false)
        }
    } else {
        find_comment(line, 0, line.len() as int)
    }
}

fn is_blank_char(c: char) -> (b: bool)
    ensures
        b == is_blank(c),
{
    c == ' ' || c == '\t' || c == '\n' || c == '\x0C' || c == '\r'
}

fn scan_comment(v: &Vec<char>, upto: usize) -> (k: usize)
    requires
        upto <= v.len(),
    ensures
        k == find_comment(v@, 0, upto as int),
        k <= upto,
{
    let mut i: usize = 0;
    while i < upto
        invariant
            i <= upto <= v.len(),
            find_comment(v@, 0, upto as int) == find_comment(v@, i as int, upto as int),
        decreases upto - i,
    {
        if v[i] == '#' && (i == 0 || is_blank_char(v[i - 1])) {
            return i;
        }
        i = i + 1;
    }
    upto
}

/// The line without its comment.
pub fn strip_comment(line: &str) -> (kept: &str)
    ensures
        kept@ == line@.subrange(0, comment_start(line@)),
        0 <= comment_start(line@) <= line@.len(),
{
    let v = chars_of(line);
    let n: usize = v.len();
    let mut eq: usize = 0;
    while eq < n && v[eq] != '='
        invariant
            eq <= n,
            n == v@.len(),
            find_equals(v@, 0) == find_equals(v@, eq as int),
        decreases n - eq,
    {
        eq = eq + 1;
    }
    let cut: usize = if eq < n {
        let key_end = scan_comment(&v, eq);
        if key_end < eq {
            key_end
        } else {
            let mut i: usize = eq + 1;
            let mut seen: bool = false;
            let mut found: Option<usize> = None;
            while i < n && found.is_none()
                invariant
                    eq < i <= n,
                    n == v@.len(),
                    match found {
                        Some(k) => k == find_value_comment(v@, eq + 1, false) && k < n,
                        None => find_value_comment(v@, eq + 1, false) == find_value_comment(
                            v@,
                            i as int,
                            seen,
                        ),
                    },
                decreases n - i + (if found is None { 1int } else { 0int }),
            {
                let c: char = v[i];
                if c == '#' {
                    if seen {
                        found = Some(i);
                    } else {
                        seen = true;
                        i = i + 1;
                    }
                } else if is_blank_char(c) {
                    i = i + 1;
                } else {
                    seen = true;
                    i = i + 1;
                }
            }
            match found {
                Some(k) => k,
                None => n,
            }
        }
    } else {
        scan_comment(&v, n)
    };
    line.substring_char(0, cut)
}

// ── hexadecimal colours ──────────────────────────────────────────────────────

/// Value of a hexadecimal digit.
pub open spec fn hex_digit(c: char) -> Option<u8> {
    if '0' <= c <= '9' {
        Some((c as u8 - '0' as u8) as u8)
    } else if 'a' <= c <= 'f' {
        Some((c as u8 - 'a' as u8 + 10) as u8)
    } else if 'A' <= c <= 'F' {
        Some((c as u8 - 'A' as u8 + 10) as u8)
    } else {
        None
    }
}

/// What two characters mean as a hexadecimal number: two digits, or a plus
/// sign and one digit; `None` if they are neither.
pub open spec fn hex_pair(a: char, b: char) -> Option<u8> {
    match hex_digit(b) {
        Some(lo) => match hex_digit(a) {
            Some(hi) => Some((hi * 16 + lo) as u8),
            None => if a == '+' {
                Some(lo)
            } else {
                None
            },
        },
        None => None,
    }
}

/// One channel of a colour: the pair's value, or 255 where it has none.
pub open spec fn channel(a: char, b: char) -> u8 {
    match hex_pair(a, b) {
        Some(v) => v,
        None => 255,
    }
}

/// End of `s` without trailing white space, not before `from`.
pub open spec fn trimmed_end(s: Seq<char>, from: int, j: int) -> int
    decreases j,
{
    if j <= from || j <= 0 || j > s.len() {
        from
    } else if is_white(s[j - 1]) {
        trimmed_end(s, from, j - 1)
    } else {
        j
    }
}

/// The digits of a colour: the text without white space around it and
/// without leading `#` signs.
pub open spec fn colour_digits(s: Seq<char>) -> Seq<char> {
    let a = leading_space_end(s, 0);
    let b = trimmed_end(s, a, s.len() as int);
    let c = hashes_end(s, a, b);
    s.subrange(c, b)
}

/// End of the white space that `s` starts with from `i` on.
pub open spec fn leading_space_end(s: Seq<char>, i: int) -> int
    decreases s.len() - i,
{
    if i < 0 || i >= s.len() {
        s.len() as int
    } else if is_white(s[i]) {
        leading_space_end(s, i + 1)
    } else {
        i
    }
}

/// End of the `#` signs in `[i, upto)`.
pub open spec fn hashes_end(s: Seq<char>, i: int, upto: int) -> int
    decreases upto - i,
{
    if i < 0 || i >= upto || i >= s.len() {
        upto
    } else if s[i] == '#' {
        hashes_end(s, i + 1, upto)
    } else {
        i
    }
}

/// The colour that the text `s` stands for: red, green and blue from the
/// first six digits, or magenta if there are fewer.
pub open spec fn hex3_spec(s: Seq<char>) -> (u8, u8, u8) {
    let d = colour_digits(s);
    if d.len() >= 6 {
        (channel(d[0], d[1]), channel(d[2], d[3]), channel(d[4], d[5]))
    } else {
        (255, 0, 255)
    }
}

fn hex_value(c: char) -> (v: Option<u8>)
    ensures
        v == hex_digit(c),
{
    if '0' <= c && c <= '9' {
        Some(c as u8 - '0' as u8)
    } else if 'a' <= c && c <= 'f' {
        Some(c as u8 - 'a' as u8 + 10)
    } else if 'A' <= c && c <= 'F' {
        Some(c as u8 - 'A' as u8 + 10)
    } else {
        None
    }
}

fn hex_channel(a: char, b: char) -> (v: u8)
    ensures
        v == channel(a, b),
{
    match hex_value(b) {
        Some(lo) => match hex_value(a) {
            Some(hi) => hi * 16 + lo,
            None => if a == '+' {
                lo
            } else {
                255
            },
        },
        None => 255,
    }
}

/// Where the digits of a colour begin and end in `v`.
fn digit_range(v: &Vec<char>) -> (r: (usize, usize))
    ensures
        r.0 <= r.1 <= v@.len(),
        colour_digits(v@) == v@.subrange(r.0 as int, r.1 as int),
{
    let n: usize = v.len();
    let mut a: usize = 0;
    while a < n && is_whitespace(v[a])
        invariant
            a <= n,
            n == v@.len(),
            leading_space_end(v@, 0) == leading_space_end(v@, a as int),
        decreases n - a,
    {
        a = a + 1;
    }
    let mut b: usize = n;
    while b > a && is_whitespace(v[b - 1])
        invariant
            a <= b <= n,
            n == v@.len(),
            trimmed_end(v@, a as int, n as int) == trimmed_end(v@, a as int, b as int),
        decreases b,
    {
        b = b - 1;
    }
    let mut c: usize = a;
    while c < b && v[c] == '#'
        invariant
            a <= c <= b <= n,
            n == v@.len(),
            hashes_end(v@, a as int, b as int) == hashes_end(v@, c as int, b as int),
        decreases b - c,
    {
        c = c + 1;
    }
    (c, b)
}

/// Parse `#RRGGBB` or `RRGGBB` into red, green and blue. A channel that is
/// no hexadecimal number counts as 255; a text with fewer than six digits
/// gives magenta.
pub fn hex3(s: &str) -> (rgb: [u8; 3])
    ensures
        (rgb[0], rgb[1], rgb[2]) == hex3_spec(s@),
{
    let v = chars_of(s);
    let (c, b) = digit_range(&v);
    if b - c >= 6 {
        [
            hex_channel(v[c], v[c + 1]),
            hex_channel(v[c + 2], v[c + 3]),
            hex_channel(v[c + 4], v[c + 5]),
        ]
    } else {
        [0xFF, 0x00, 0xFF]
    }
}

/// The colour with opacity that the text `s` stands for: six digits give
/// an opaque colour, eight digits one with the opacity of the last two;
/// any other number of digits gives opaque magenta.
pub open spec fn hex4_spec(s: Seq<char>) -> (u8, u8, u8, u8) {
    let d = colour_digits(s);
    if d.len() == 6 {
        (channel(d[0], d[1]), channel(d[2], d[3]), channel(d[4], d[5]), 255)
    } else if d.len() == 8 {
        (channel(d[0], d[1]), channel(d[2], d[3]), channel(d[4], d[5]), channel(d[6], d[7]))
    } else {
        (255, 0, 255, 255)
    }
}

/// Parse `#RRGGBB` or `#RRGGBBAA` into red, green, blue and opacity, each
/// from 0 to 255. A channel that is no hexadecimal number counts as 255.
pub fn hex4(s: &str) -> (rgba: [u8; 4])
    ensures
        (rgba[0], rgba[1], rgba[2], rgba[3]) == hex4_spec(s@),
{
    let v = chars_of(s);
    let (c, b) = digit_range(&v);
    if b - c == 6 {
        [
            hex_channel(v[c], v[c + 1]),
            hex_channel(v[c + 2], v[c + 3]),
            hex_channel(v[c + 4], v[c + 5]),
            0xFF,
        ]
    } else if b - c == 8 {
        [
            hex_channel(v[c], v[c + 1]),
            hex_channel(v[c + 2], v[c + 3]),
            hex_channel(v[c + 4], v[c + 5]),
            hex_channel(v[c + 6], v[c + 7]),
        ]
    } else {
        [0xFF, 0x00, 0xFF, 0xFF]
    }
}

// ── paths ────────────────────────────────────────────────────────────────────

/// `s` with a leading `~` replaced by the home directory `home`.
pub fn expand_tilde(s: &str, home: &str) -> (r: String)
    ensures
        r@ == (if s@.len() > 0 && s@[0] == '~' {
            home@ + s@.subrange(1, s@.len() as int)
        } else {
            s@
        }),
{
    let v = chars_of(s);
    if v.len() > 0 && v[0] == '~' {
        let mut r = String::new();
        push_chars(&mut r, home);
        let rest = string_of(&v, 1, v.len());
        push_chars(&mut r, rest.as_str());
        assert(r@ =~= home@ + s@.subrange(1, s@.len() as int));
        r
    } else {
        s.to_owned()
    }
}

/// A path is absolute if it starts at the root `/`, as on every Unix.
pub open spec fn path_absolute(path: Seq<char>) -> bool {
    path.len() > 0 && path[0] == '/'
}

/// The path without its last component, if it has one, on the system that
/// this is built for.
pub uninterp spec fn path_parent(path: Seq<char>) -> Option<Seq<char>>;

/// The path `rel` seen from the directory `base`, on the system that this
/// is built for.
pub uninterp spec fn path_joined(base: Seq<char>, rel: Seq<char>) -> Seq<char>;

fn is_absolute(path: &str) -> (b: bool)
    ensures
        b == path_absolute(path@),
{
    path.unicode_len() > 0 && path.get_char(0) == '/'
}

/// `std::path::Path::parent`.
#[verifier::external_body]
fn parent(path: &str) -> (p: Option<String>)
    ensures
        match path_parent(path@) {
            Some(d) => p matches Some(got) && got@ == d,
            None => p is None,
        },
{
    std::path::Path::new(path).parent().map(|d| d.to_string_lossy().into_owned())
}

/// `std::path::Path::join`.
#[verifier::external_body]
fn join(base: &str, rel: &str) -> (p: String)
    ensures
        p@ == path_joined(base@, rel@),
{
    std::path::Path::new(base).join(rel).to_string_lossy().into_owned()
}

/// The path that a configuration value names: the value with its tilde
/// expanded if that is absolute, else seen from the directory of the file
/// `relative_to` that the value stands in.
pub fn resolve_path(value: &str, relative_to: &str, home: &str) -> (r: String)
    ensures
        ({
            let expanded = if value@.len() > 0 && value@[0] == '~' {
                home@ + value@.subrange(1, value@.len() as int)
            } else {
                value@
            };
            r@ == (if path_absolute(expanded) {
                expanded
            } else {
                path_joined(
                    match path_parent(relative_to@) {
                        Some(d) => d,
                        None => "."@,
                    },
                    expanded,
                )
            })
        }),
{
    let expanded = expand_tilde(value, home);
    if is_absolute(expanded.as_str()) {
        expanded
    } else {
        match parent(relative_to) {
            Some(d) => join(d.as_str(), expanded.as_str()),
            None => join(".", expanded.as_str()),
        }
    }
}

// ── font file names ──────────────────────────────────────────────────────────

/// Position of the first occurrence of `needle` in `hay` from `i` on.
pub open spec fn find_from(hay: Seq<char>, needle: Seq<char>, i: int) -> Option<int>
    decreases hay.len() - i,
{
    if i < 0 || i > hay.len() {
        None
    } else if occurs_at(hay, needle, i) {
        Some(i)
    } else if i == hay.len() {
        None
    } else {
        find_from(hay, needle, i + 1)
    }
}

/// Position of the last dot before `j`.
pub open spec fn last_dot(s: Seq<char>, j: int) -> Option<int>
    decreases j,
{
    if j <= 0 || j > s.len() {
        None
    } else if s[j - 1] == '.' {
        Some(j - 1)
    } else {
        last_dot(s, j - 1)
    }
}

/// Where the word "Regular", in any case, with the hyphen or underscore
/// before it if it has one, begins in a file name.
pub open spec fn regular_at(name: Seq<char>) -> Option<int> {
    let lower = ascii_lowered(name);
    if find_from(lower, "-regular"@, 0) is Some {
        find_from(lower, "-regular"@, 0)
    } else if find_from(lower, "_regular"@, 0) is Some {
        find_from(lower, "_regular"@, 0)
    } else {
        find_from(lower, "regular"@, 0)
    }
}

/// The file name of a variant of a font: the name of the regular face with
/// "Regular" and what follows it replaced by the variant, or with the
/// variant put before the extension if the name does not say "Regular".
/// The extension is what follows the last dot, `.ttf` if there is none.
pub open spec fn derive_variant_spec(name: Seq<char>, variant: Seq<char>) -> Seq<char> {
    let ext = match last_dot(name, name.len() as int) {
        Some(d) => name.subrange(d, name.len() as int),
        None => ".ttf"@,
    };
    let base = match regular_at(name) {
        Some(i) => name.subrange(0, i),
        None => match last_dot(name, name.len() as int) {
            Some(d) => name.subrange(0, d),
            None => name,
        },
    };
    base + "-"@ + variant + ext
}

proof fn lemma_find_from(hay: Seq<char>, needle: Seq<char>, i: int, first: int)
    requires
        0 <= i <= first <= hay.len(),
        occurs_at(hay, needle, first),
        forall|k: int| i <= k < first ==> !occurs_at(hay, needle, k),
    ensures
        find_from(hay, needle, i) == Some(first),
    decreases first - i,
{
    if i < first {
        lemma_find_from(hay, needle, i + 1, first);
    }
}

proof fn lemma_find_none(hay: Seq<char>, needle: Seq<char>, i: int)
    requires
        0 <= i <= hay.len(),
        forall|k: int| i <= k <= hay.len() ==> !occurs_at(hay, needle, k),
    ensures
        find_from(hay, needle, i) is None,
    decreases hay.len() - i,
{
    if i < hay.len() {
        lemma_find_none(hay, needle, i + 1);
    }
}

fn find_text(hay: &Vec<char>, needle: &str) -> (r: Option<usize>)
    ensures
        match r {
            Some(i) => find_from(hay@, needle@, 0) == Some(i as int) && i <= hay.len(),
            None => find_from(hay@, needle@, 0) is None,
        },
{
    let n = chars_of(needle);
    let r = find_chars(hay, &n);
    proof {
        match r {
            Some(i) => {
                lemma_find_from(hay@, needle@, 0, i as int);
            },
            None => {
                assert forall|k: int| 0 <= k <= hay@.len() implies !occurs_at(hay@, needle@, k) by {
                    if occurs_at(hay@, needle@, k) {
                        assert(crate::text::occurs(hay@, needle@));
                    }
                }
                lemma_find_none(hay@, needle@, 0);
            },
        }
    }
    r
}

pub fn derive_variant(regular_name: &str, variant: &str) -> (r: String)
    ensures
        r@ == derive_variant_spec(regular_name@, variant@),
{
    let name = chars_of(regular_name);
    let n: usize = name.len();
    let mut lower: Vec<char> = Vec::new();
    let mut i: usize = 0;
    while i < n
        invariant
            i <= n,
            n == name@.len(),
            lower@ == ascii_lowered(name@).subrange(0, i as int),
        decreases n - i,
    {
        let c: char = name[i];
        let l: char = if 'A' <= c && c <= 'Z' { ((c as u8) + 32) as char } else { c };
        lower.push(l);
        proof {
            assert(lower@ =~= ascii_lowered(name@).subrange(0, i + 1));
        }
        i = i + 1;
    }
    proof {
        assert(lower@ =~= ascii_lowered(name@));
    }
    let mut dot: Option<usize> = None;
    let mut j: usize = n;
    while j > 0 && dot.is_none()
        invariant
            j <= n,
            n == name@.len(),
            match dot {
                Some(d) => last_dot(name@, n as int) == Some(d as int) && d < n,
                None => last_dot(name@, n as int) == last_dot(name@, j as int),
            },
        decreases j + (if dot is None { 1int } else { 0int }),
    {
        if name[j - 1] == '.' {
            dot = Some(j - 1);
        } else {
            j = j - 1;
        }
    }
    let found = match find_text(&lower, "-regular") {
        Some(k) => Some(k),
        None => match find_text(&lower, "_regular") {
            Some(k) => Some(k),
            None => find_text(&lower, "regular"),
        },
    };
    let end: usize = match found {
        Some(k) => k,
        None => match dot {
            Some(d) => d,
            None => n,
        },
    };
    let mut r = string_of(&name, 0, end);
    push_chars(&mut r, "-");
    push_chars(&mut r, variant);
    match dot {
        Some(d) => {
            let ext = string_of(&name, d, n);
            push_chars(&mut r, ext.as_str());
        },
        None => {
            push_chars(&mut r, ".ttf");
        },
    }
    proof {
        assert(name@.subrange(0, n as int) =~= name@);
        assert(r@ =~= derive_variant_spec(regular_name@, variant@));
    }
    r
}

} // verus!

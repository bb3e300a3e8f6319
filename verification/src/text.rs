//! Small string helpers over character sequences.

use vstd::prelude::*;

verus! {

/// `str`'s `==`: true exactly when both hold the same characters.
#[verifier::external_body]
pub(crate) fn str_eq(a: &str, b: &str) -> (r: bool)
    ensures
        r == (a@ == b@),
{
    a == b
}

/// `String::push`: appends one character.
#[verifier::external_body]
pub(crate) fn push_char(s: &mut String, c: char)
    ensures
        final(s)@ == old(s)@.push(c),
{
    s.push(c)
}

/// `char::from_u32`: the character with the code point `cp`; none for a
/// surrogate or a number beyond the last code point.
#[verifier::external_body]
pub(crate) fn char_of(cp: u32) -> (r: Option<char>)
    ensures
        r is Some <==> cp < 0xD800 || 0xDFFF < cp <= 0x10FFFF,
        r matches Some(c) ==> c as u32 == cp,
{
    char::from_u32(cp)
}

/// The characters of `s`, in order.
pub fn chars_of(s: &str) -> (v: Vec<char>)
    ensures
        v@ == s@,
{
    let n: usize = s.unicode_len();
    let mut v: Vec<char> = Vec::new();
    let mut i: usize = 0;
    while i < n
        invariant
            n == s@.len(),
            i <= n,
            v@ == s@.subrange(0, i as int),
        decreases n - i,
    {
        v.push(s.get_char(i));
        proof {
            assert(v@ =~= s@.subrange(0, i + 1));
        }
        i = i + 1;
    }
    proof {
        assert(s@.subrange(0, n as int) =~= s@);
    }
    v
}

/// A string made of the characters `v[from..to]`.
pub fn string_of(v: &Vec<char>, from: usize, to: usize) -> (s: String)
    requires
        from <= to <= v.len(),
    ensures
        s@ == v@.subrange(from as int, to as int),
{
    let mut s = String::new();
    let mut i: usize = from;
    while i < to
        invariant
            from <= i <= to <= v.len(),
            s@ == v@.subrange(from as int, i as int),
        decreases to - i,
    {
        push_char(&mut s, v[i]);
        proof {
            assert(s@ =~= v@.subrange(from as int, i + 1));
        }
        i = i + 1;
    }
    s
}

/// Decimal digits of `v`, most significant first.
pub open spec fn decimal(v: nat) -> Seq<char>
    decreases v,
{
    if v < 10 {
        seq![digit_char(v)]
    } else {
        decimal(v / 10).push(digit_char(v % 10))
    }
}

pub open spec fn digit_char(d: nat) -> char {
    if d == 0 {
        '0'
    } else if d == 1 {
        '1'
    } else if d == 2 {
        '2'
    } else if d == 3 {
        '3'
    } else if d == 4 {
        '4'
    } else if d == 5 {
        '5'
    } else if d == 6 {
        '6'
    } else if d == 7 {
        '7'
    } else if d == 8 {
        '8'
    } else {
        '9'
    }
}

fn digit_of(d: u64) -> (c: char)
    requires
        d < 10,
    ensures
        c == digit_char(d as nat),
{
    if d == 0 {
        '0'
    } else if d == 1 {
        '1'
    } else if d == 2 {
        '2'
    } else if d == 3 {
        '3'
    } else if d == 4 {
        '4'
    } else if d == 5 {
        '5'
    } else if d == 6 {
        '6'
    } else if d == 7 {
        '7'
    } else if d == 8 {
        '8'
    } else {
        '9'
    }
}

/// Append the decimal digits of `v` to `s`.
pub fn push_decimal(s: &mut String, v: u64)
    ensures
        final(s)@ == old(s)@ + decimal(v as nat),
    decreases v,
{
    if v < 10 {
        push_char(s, digit_of(v));
        proof {
            assert(s@ =~= old(s)@ + decimal(v as nat));
        }
    } else {
        push_decimal(s, v / 10);
        push_char(s, digit_of(v % 10));
        proof {
            assert(s@ =~= old(s)@ + decimal(v as nat));
        }
    }
}

/// Append the characters of `t` to `s`.
pub fn push_chars(s: &mut String, t: &str)
    ensures
        final(s)@ == old(s)@ + t@,
{
    s.append(t);
}

/// `needle` stands in `hay` at position `i`.
pub open spec fn occurs_at(hay: Seq<char>, needle: Seq<char>, i: int) -> bool {
    0 <= i && i + needle.len() <= hay.len() && hay.subrange(i, i + needle.len()) == needle
}

/// `needle` stands somewhere in `hay`.
pub open spec fn occurs(hay: Seq<char>, needle: Seq<char>) -> bool {
    exists|i: int| occurs_at(hay, needle, i)
}

/// Whether `needle` stands in `hay` at position `i`.
pub fn matches_at(hay: &Vec<char>, needle: &Vec<char>, i: usize) -> (b: bool)
    ensures
        b == occurs_at(hay@, needle@, i as int),
{
    if needle.len() > hay.len() || i > hay.len() - needle.len() {
        return false;
    }
    let mut j: usize = 0;
    while j < needle.len()
        invariant
            j <= needle.len(),
            i + needle.len() <= hay.len(),
            forall|k: int| 0 <= k < j ==> hay@[i + k] == needle@[k],
        decreases needle.len() - j,
    {
        if hay[i + j] != needle[j] {
            assert(hay@.subrange(i as int, i + needle@.len())[j as int] != needle@[j as int]);
            return false;
        }
        j = j + 1;
    }
    assert(hay@.subrange(i as int, i + needle@.len()) =~= needle@);
    true
}

/// Position of the first occurrence of `needle` in `hay`.
pub fn find_chars(hay: &Vec<char>, needle: &Vec<char>) -> (r: Option<usize>)
    ensures
        match r {
            Some(i) => occurs_at(hay@, needle@, i as int) && forall|k: int|
                0 <= k < i ==> !occurs_at(hay@, needle@, k),
            None => !occurs(hay@, needle@),
        },
{
    let mut i: usize = 0;
    while i < hay.len()
        invariant
            i <= hay.len(),
            forall|k: int| 0 <= k < i ==> !occurs_at(hay@, needle@, k),
        decreases hay.len() - i,
    {
        if matches_at(hay, needle, i) {
            return Some(i);
        }
        i = i + 1;
    }
    if matches_at(hay, needle, i) {
        return Some(i);
    }
    None
}

/// Whether `needle` stands somewhere in `hay`.
pub fn contains_chars(hay: &Vec<char>, needle: &Vec<char>) -> (b: bool)
    ensures
        b == occurs(hay@, needle@),
{
    match find_chars(hay, needle) {
        Some(i) => {
            assert(occurs_at(hay@, needle@, i as int));
            true
        },
        None => false,
    }
}

// ── white space ──────────────────────────────────────────────────────────────

/// White space as `str::trim` and `split_whitespace` take it: the
/// characters that Unicode lists as White_Space.
pub open spec fn is_white(c: char) -> bool {
    let cp = c as u32;
    (0x09 <= cp <= 0x0D) || cp == 0x20 || cp == 0x85 || cp == 0xA0 || cp == 0x1680 || (0x2000 <= cp
        <= 0x200A) || cp == 0x2028 || cp == 0x2029 || cp == 0x202F || cp == 0x205F || cp == 0x3000
}

pub fn is_whitespace(c: char) -> (b: bool)
    ensures
        b == is_white(c),
{
    let cp: u32 = c as u32;
    (0x09 <= cp && cp <= 0x0D) || cp == 0x20 || cp == 0x85 || cp == 0xA0 || cp == 0x1680 || (0x2000
        <= cp && cp <= 0x200A) || cp == 0x2028 || cp == 0x2029 || cp == 0x202F || cp == 0x205F || cp
        == 0x3000
}

/// Where `s[from..to]` begins once its leading white space is taken off.
pub open spec fn trim_start(s: Seq<char>, from: int, to: int) -> int
    decreases to - from,
{
    if from >= to || from < 0 || to > s.len() {
        to
    } else if is_white(s[from]) {
        trim_start(s, from + 1, to)
    } else {
        from
    }
}

/// Where `s[from..to]` ends once its trailing white space is taken off.
pub open spec fn trim_end(s: Seq<char>, from: int, to: int) -> int
    decreases to - from,
{
    if from >= to || from < 0 || to > s.len() {
        from
    } else if is_white(s[to - 1]) {
        trim_end(s, from, to - 1)
    } else {
        to
    }
}

/// `s[from..to]` without the white space around it.
pub open spec fn trimmed_part(s: Seq<char>, from: int, to: int) -> Seq<char> {
    let a = trim_start(s, from, to);
    s.subrange(a, trim_end(s, a, to))
}

/// `s` without the white space around it.
pub open spec fn trimmed(s: Seq<char>) -> Seq<char> {
    trimmed_part(s, 0, s.len() as int)
}

proof fn lemma_trim_bounds(s: Seq<char>, from: int, to: int)
    requires
        0 <= from <= to <= s.len(),
    ensures
        from <= trim_start(s, from, to) <= to,
        from <= trim_end(s, from, to) <= to,
    decreases to - from,
{
    if from < to {
        lemma_trim_bounds(s, from + 1, to);
        lemma_trim_bounds(s, from, to - 1);
    }
}

/// A text of ASCII characters stays one when white space is taken off.
pub proof fn lemma_trimmed_ascii(s: Seq<char>)
    requires
        all_ascii(s),
    ensures
        all_ascii(trimmed(s)),
{
    let a = trim_start(s, 0, s.len() as int);
    lemma_trim_bounds(s, 0, s.len() as int);
    lemma_trim_bounds(s, a, s.len() as int);
    let b = trim_end(s, a, s.len() as int);
    assert forall|i: int| 0 <= i < trimmed(s).len() implies (#[trigger] trimmed(s)[i] as u32)
        < 128 by {
        assert(trimmed(s)[i] == s[a + i]);
    }
}

/// The bounds of `v[from..to]` without the white space around it.
pub fn trim_range(v: &Vec<char>, from: usize, to: usize) -> (r: (usize, usize))
    requires
        from <= to <= v.len(),
    ensures
        r.0 == trim_start(v@, from as int, to as int),
        r.1 == trim_end(v@, r.0 as int, to as int),
        from <= r.0 <= r.1 <= to,
        v@.subrange(r.0 as int, r.1 as int) == trimmed_part(v@, from as int, to as int),
{
    let mut a: usize = from;
    while a < to && is_whitespace(v[a])
        invariant
            from <= a <= to <= v.len(),
            trim_start(v@, from as int, to as int) == trim_start(v@, a as int, to as int),
        decreases to - a,
    {
        a = a + 1;
    }
    let mut b: usize = to;
    while b > a && is_whitespace(v[b - 1])
        invariant
            a <= b <= to <= v.len(),
            trim_end(v@, a as int, to as int) == trim_end(v@, a as int, b as int),
        decreases b - a,
    {
        b = b - 1;
    }
    (a, b)
}

/// `s` without the white space around it.
pub fn trim_chars(s: &str) -> (v: Vec<char>)
    ensures
        v@ == trimmed(s@),
{
    let all = chars_of(s);
    let (a, b) = trim_range(&all, 0, all.len());
    let mut v: Vec<char> = Vec::new();
    let mut i: usize = a;
    while i < b
        invariant
            a <= i <= b <= all.len(),
            v@ == all@.subrange(a as int, i as int),
        decreases b - i,
    {
        v.push(all[i]);
        proof {
            assert(v@ =~= all@.subrange(a as int, i + 1));
        }
        i = i + 1;
    }
    v
}

/// The words of `s` from position `i` on, where `cur` is the part of the
/// current word read before `i`: the stretches between white space.
pub open spec fn words_at(s: Seq<char>, i: int, cur: Seq<char>) -> Seq<Seq<char>>
    decreases s.len() - i,
{
    if i < 0 || i >= s.len() {
        if cur.len() > 0 {
            seq![cur]
        } else {
            Seq::empty()
        }
    } else if is_white(s[i]) {
        if cur.len() > 0 {
            seq![cur] + words_at(s, i + 1, Seq::empty())
        } else {
            words_at(s, i + 1, cur)
        }
    } else {
        words_at(s, i + 1, cur.push(s[i]))
    }
}

/// The words of `v[from..to]`, as `split_whitespace` gives them.
pub fn split_words(v: &Vec<char>, from: usize, to: usize) -> (words: Vec<Vec<char>>)
    requires
        from <= to <= v.len(),
    ensures
        vec_views(words@) == words_at(v@.subrange(from as int, to as int), 0, Seq::empty()),
{
    let ghost s = v@.subrange(from as int, to as int);
    let mut words: Vec<Vec<char>> = Vec::new();
    let mut cur: Vec<char> = Vec::new();
    let mut i: usize = from;
    assert(vec_views(words@) + words_at(s, 0, cur@) =~= words_at(s, 0, Seq::empty()));
    while i < to
        invariant
            from <= i <= to <= v.len(),
            s == v@.subrange(from as int, to as int),
            vec_views(words@) + words_at(s, i - from, cur@) == words_at(s, 0, Seq::empty()),
        decreases to - i,
    {
        let c: char = v[i];
        assert(s[i - from] == c);
        let ghost done = vec_views(words@);
        if is_whitespace(c) {
            if cur.len() > 0 {
                let ghost word = cur@;
                let mut w: Vec<char> = Vec::new();
                w.append(&mut cur);
                assert(w@ =~= word);
                words.push(w);
                proof {
                    assert(cur@ =~= Seq::<char>::empty());
                    assert(vec_views(words@) =~= done + seq![word]);
                    assert(done + (seq![word] + words_at(s, i - from + 1, Seq::empty())) =~= (done
                        + seq![word]) + words_at(s, i - from + 1, Seq::empty()));
                }
            }
        } else {
            cur.push(c);
        }
        i = i + 1;
    }
    if cur.len() > 0 {
        let ghost done = vec_views(words@);
        let ghost word = cur@;
        words.push(cur);
        proof {
            assert(vec_views(words@) =~= done + seq![word]);
        }
    } else {
        proof {
            assert(vec_views(words@) + Seq::<Seq<char>>::empty() =~= vec_views(words@));
        }
    }
    words
}

/// The views of a list of character vectors.
pub open spec fn vec_views(v: Seq<Vec<char>>) -> Seq<Seq<char>> {
    Seq::new(v.len(), |i: int| v[i]@)
}

// ── case and numbers ─────────────────────────────────────────────────────────

/// An ASCII letter in lower case; any other character as it is.
pub open spec fn ascii_lower(c: char) -> char {
    if 'A' <= c <= 'Z' {
        ((c as u8) + 32) as char
    } else {
        c
    }
}

/// The text with its ASCII letters in lower case.
pub open spec fn ascii_lowered(s: Seq<char>) -> Seq<char> {
    Seq::new(s.len(), |i: int| ascii_lower(s[i]))
}

/// Every character of the text is an ASCII character.
pub open spec fn all_ascii(s: Seq<char>) -> bool {
    forall|i: int| 0 <= i < s.len() ==> (#[trigger] s[i] as u32) < 128
}

/// The lower-case form of a text, as `str::to_lowercase` gives it.
pub uninterp spec fn lowercased(s: Seq<char>) -> Seq<char>;

/// `str::to_lowercase`: the lower-case form of the text by the rules of
/// Unicode, which depend on nothing but the text. In a text of ASCII
/// characters these rules touch the letters `A` to `Z` alone, and give
/// `a` to `z` for them.
#[verifier::external_body]
pub(crate) fn lowercase(s: &str) -> (r: String)
    ensures
        r@ == lowercased(s@),
        all_ascii(s@) ==> r@ == ascii_lowered(s@),
{
    s.to_lowercase()
}

/// Value of a sequence of decimal digits.
pub open spec fn digits_value(d: Seq<char>) -> int
    decreases d.len(),
{
    if d.len() == 0 {
        0
    } else {
        digits_value(d.drop_last()) * 10 + (d.last() as u32 - '0' as u32)
    }
}

pub open spec fn all_digits(d: Seq<char>) -> bool {
    forall|i: int| 0 <= i < d.len() ==> '0' <= #[trigger] d[i] <= '9'
}

/// The number that a text stands for: one or more decimal digits behind an
/// optional sign, a minus sign only if `signed`; nothing else, and no value
/// outside `[lo, hi]`.
pub open spec fn parsed_int(s: Seq<char>, signed: bool, lo: int, hi: int) -> Option<int> {
    let negative = has_minus(s, signed);
    let digits = digits_part(s, signed);
    let value = if negative {
        -digits_value(digits)
    } else {
        digits_value(digits)
    };
    if digits.len() > 0 && all_digits(digits) && lo <= value <= hi {
        Some(value)
    } else {
        None
    }
}

/// The text begins with a minus sign that counts.
pub open spec fn has_minus(s: Seq<char>, signed: bool) -> bool {
    s.len() > 0 && s[0] == '-' && signed
}

/// The text behind its sign.
pub open spec fn digits_part(s: Seq<char>, signed: bool) -> Seq<char> {
    if s.len() > 0 && (s[0] == '+' || has_minus(s, signed)) {
        s.subrange(1, s.len() as int)
    } else {
        s
    }
}

proof fn lemma_digits_grow(d: Seq<char>, k: int)
    requires
        0 <= k <= d.len(),
        all_digits(d),
    ensures
        0 <= digits_value(d.subrange(0, k)) <= digits_value(d),
    decreases d.len() - k,
{
    if k < d.len() {
        lemma_digits_grow(d, k + 1);
        assert(d.subrange(0, k + 1).drop_last() =~= d.subrange(0, k));
        lemma_digits_nonneg(d.subrange(0, k));
    } else {
        assert(d.subrange(0, k) =~= d);
        lemma_digits_nonneg(d);
    }
}

proof fn lemma_digits_nonneg(d: Seq<char>)
    requires
        all_digits(d),
    ensures
        0 <= digits_value(d),
    decreases d.len(),
{
    if d.len() > 0 {
        lemma_digits_nonneg(d.drop_last());
    }
}

/// Parse a whole number within `[lo, hi]`.
pub fn parse_int(v: &Vec<char>, signed: bool, lo: i64, hi: i64) -> (r: Option<i64>)
    requires
        -0x1_0000_0000 <= lo <= hi <= 0x1_0000_0000,
    ensures
        match parsed_int(v@, signed, lo as int, hi as int) {
            Some(n) => r == Some(n as i64),
            None => r is None,
        },
{
    let n: usize = v.len();
    if n == 0 {
        return None;
    }
    let negative: bool = v[0] == '-' && signed;
    let start: usize = if v[0] == '+' || negative { 1 } else { 0 };
    let ghost digits = v@.subrange(start as int, n as int);
    assert(digits =~= digits_part(v@, signed));
    if start == n {
        return None;
    }
    let mut value: i64 = 0;
    let mut i: usize = start;
    assert(digits.subrange(0, 0) =~= Seq::<char>::empty());
    while i < n
        invariant
            start <= i <= n,
            n == v@.len(),
            digits == v@.subrange(start as int, n as int),
            digits == digits_part(v@, signed),
            negative == has_minus(v@, signed),
            all_digits(digits.subrange(0, i - start)),
            value == digits_value(digits.subrange(0, i - start)),
            0 <= value <= 0x2_0000_0000,
            -0x1_0000_0000 <= lo <= hi <= 0x1_0000_0000,
        decreases n - i,
    {
        let c: char = v[i];
        assert(digits[i - start] == c);
        if !('0' <= c && c <= '9') {
            assert(!('0' <= digits[i - start] <= '9'));
            return None;
        }
        proof {
            assert(digits.subrange(0, i - start + 1).drop_last() =~= digits.subrange(0, i - start));
            assert forall|k: int| 0 <= k < i - start + 1 implies '0' <= #[trigger] digits.subrange(
                0,
                i - start + 1,
            )[k] <= '9' by {
                if k < i - start {
                    assert(digits.subrange(0, i - start)[k] == digits[k]);
                }
            }
        }
        value = value * 10 + (c as u32 - '0' as u32) as i64;
        assert(value == digits_value(digits.subrange(0, i - start + 1)));
        if value > 0x1_0000_0000 {
            proof {
                if all_digits(digits) {
                    lemma_digits_grow(digits, i - start + 1);
                }
            }
            return None;
        }
        i = i + 1;
    }
    proof {
        assert(digits.subrange(0, n - start) =~= digits);
    }
    let signed_value: i64 = if negative { -value } else { value };
    if lo <= signed_value && signed_value <= hi {
        Some(signed_value)
    } else {
        None
    }
}

/// Parse a whole number without sign that fits 64 bits, as `u64`'s
/// `from_str` does: decimal digits, with `+` allowed in front.
pub fn parse_u64(v: &Vec<char>) -> (r: Option<u64>)
    ensures
        match parsed_int(v@, false, 0, u64::MAX as int) {
            Some(n) => r == Some(n as u64),
            None => r is None,
        },
{
    let n: usize = v.len();
    if n == 0 {
        return None;
    }
    let start: usize = if v[0] == '+' { 1 } else { 0 };
    let ghost digits = v@.subrange(start as int, n as int);
    assert(digits =~= digits_part(v@, false));
    assert(!has_minus(v@, false));
    if start == n {
        return None;
    }
    let mut value: u128 = 0;
    let mut i: usize = start;
    assert(digits.subrange(0, 0) =~= Seq::<char>::empty());
    while i < n
        invariant
            start <= i <= n,
            n == v@.len(),
            digits == v@.subrange(start as int, n as int),
            digits == digits_part(v@, false),
            !has_minus(v@, false),
            all_digits(digits.subrange(0, i - start)),
            value == digits_value(digits.subrange(0, i - start)),
            0 <= value <= u64::MAX,
        decreases n - i,
    {
        let c: char = v[i];
        assert(digits[i - start] == c);
        if !('0' <= c && c <= '9') {
            assert(!('0' <= digits[i - start] <= '9'));
            return None;
        }
        proof {
            assert(digits.subrange(0, i - start + 1).drop_last() =~= digits.subrange(0, i - start));
            assert forall|k: int| 0 <= k < i - start + 1 implies '0' <= #[trigger] digits.subrange(
                0,
                i - start + 1,
            )[k] <= '9' by {
                if k < i - start {
                    assert(digits.subrange(0, i - start)[k] == digits[k]);
                }
            }
        }
        let d: u32 = c as u32 - '0' as u32;
        value = value * 10 + d as u128;
        assert(value == digits_value(digits.subrange(0, i - start + 1)));
        if value > 0xFFFF_FFFF_FFFF_FFFF {
            proof {
                if all_digits(digits) {
                    lemma_digits_grow(digits, i - start + 1);
                }
            }
            return None;
        }
        i = i + 1;
    }
    proof {
        assert(digits.subrange(0, n - start) =~= digits);
    }
    Some(value as u64)
}

} // verus!

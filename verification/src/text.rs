//! Character-level helpers shared by the front ends.

use vstd::prelude::*;

verus! {

/// `String::push`: appends one character to a string.
#[verifier::external_body]
pub(crate) fn push_char(s: &mut String, c: char)
    ensures
        final(s)@ == old(s)@.push(c),
{
    s.push(c)
}

/// The characters of a string slice.
pub fn to_chars(s: &str) -> (r: Vec<char>)
    ensures
        r@ == s@,
{
    let mut out: Vec<char> = Vec::new();
    for c in it: s.chars()
        invariant
            out@ == it.seq().subrange(0, it.index() as int),
    {
        out.push(c);
    }
    out
}


/// A string holding exactly the given characters.
pub fn from_chars(cs: &[char]) -> (r: String)
    ensures
        r@ == cs@,
{
    let mut out = String::new();
    let mut i: usize = 0;
    while i < cs.len()
        invariant
            i <= cs@.len(),
            out@ == cs@.subrange(0, i as int),
        decreases cs.len() - i,
    {
        push_char(&mut out, cs[i]);
        i = i + 1;
        assert(out@ == cs@.subrange(0, i as int));
    }
    assert(cs@.subrange(0, cs@.len() as int) == cs@);
    out
}

/// Whether two character slices are equal.
pub fn chars_eq(a: &[char], b: &[char]) -> (r: bool)
    ensures
        r == (a@ == b@),
{
    if a.len() != b.len() {
        return false;
    }
    let mut i: usize = 0;
    while i < a.len()
        invariant
            i <= a@.len(),
            a@.len() == b@.len(),
            a@.subrange(0, i as int) == b@.subrange(0, i as int),
        decreases a.len() - i,
    {
        if a[i] != b[i] {
            return false;
        }
        i = i + 1;
        assert(a@.subrange(0, i as int) == b@.subrange(0, i as int)) by {
            assert forall|k: int| 0 <= k < i implies a@.subrange(0, i as int)[k]
                == b@.subrange(0, i as int)[k] by {
                if k < i - 1 {
                    assert(a@.subrange(0, i - 1)[k] == b@.subrange(0, i - 1)[k]);
                }
            }
        }
    }
    assert(a@ == a@.subrange(0, i as int));
    assert(b@ == b@.subrange(0, i as int));
    true
}

/// Whether two string slices hold the same characters.
pub fn str_eq(a: &str, b: &str) -> (r: bool)
    ensures
        r == (a@ == b@),
{
    let ca = to_chars(a);
    let cb = to_chars(b);
    chars_eq(ca.as_slice(), cb.as_slice())
}

/// A copy of a string.
pub fn copy_string(s: &String) -> (r: String)
    ensures
        r@ == s@,
{
    s.clone()
}

/// An owned string from a string slice.
pub fn str_to_string(s: &str) -> (r: String)
    ensures
        r@ == s@,
{
    let cs = to_chars(s);
    from_chars(cs.as_slice())
}


/// Unicode `White_Space`, as `char::is_whitespace` defines it.
pub open spec fn spec_is_ws(c: char) -> bool {
    ||| c == ' '
    ||| ('\t' <= c && c <= '\r')
    ||| c == '\u{85}'
    ||| c == '\u{a0}'
    ||| c == '\u{1680}'
    ||| ('\u{2000}' <= c && c <= '\u{200a}')
    ||| c == '\u{2028}'
    ||| c == '\u{2029}'
    ||| c == '\u{202f}'
    ||| c == '\u{205f}'
    ||| c == '\u{3000}'
}

/// Whether `c` is Unicode white space.
pub fn is_ws(c: char) -> (r: bool)
    ensures
        r == spec_is_ws(c),
{
    c == ' ' || ('\t' <= c && c <= '\r') || c == '\u{85}' || c == '\u{a0}' || c == '\u{1680}'
        || ('\u{2000}' <= c && c <= '\u{200a}') || c == '\u{2028}' || c == '\u{2029}' || c
        == '\u{202f}' || c == '\u{205f}' || c == '\u{3000}'
}

/// ASCII letter.
pub open spec fn spec_is_alpha(c: char) -> bool {
    ('a' <= c && c <= 'z') || ('A' <= c && c <= 'Z')
}

/// ASCII decimal digit.
pub open spec fn spec_is_digit(c: char) -> bool {
    '0' <= c && c <= '9'
}

/// ASCII hexadecimal digit.
pub open spec fn spec_is_hex(c: char) -> bool {
    spec_is_digit(c) || ('a' <= c && c <= 'f') || ('A' <= c && c <= 'F')
}

/// ASCII letter.
pub fn is_alpha(c: char) -> (r: bool)
    ensures
        r == spec_is_alpha(c),
{
    ('a' <= c && c <= 'z') || ('A' <= c && c <= 'Z')
}

/// ASCII decimal digit.
pub fn is_digit(c: char) -> (r: bool)
    ensures
        r == spec_is_digit(c),
{
    '0' <= c && c <= '9'
}

/// ASCII hexadecimal digit.
pub fn is_hex(c: char) -> (r: bool)
    ensures
        r == spec_is_hex(c),
{
    ('0' <= c && c <= '9') || ('a' <= c && c <= 'f') || ('A' <= c && c <= 'F')
}

/// The text without trailing white space.
pub open spec fn spec_trim_end(s: Seq<char>) -> Seq<char>
    decreases s.len(),
{
    if s.len() > 0 && spec_is_ws(s.last()) {
        spec_trim_end(s.drop_last())
    } else {
        s
    }
}

/// The text without leading white space.
pub open spec fn spec_trim_start(s: Seq<char>) -> Seq<char>
    decreases s.len(),
{
    if s.len() > 0 && spec_is_ws(s[0]) {
        spec_trim_start(s.drop_first())
    } else {
        s
    }
}

/// The text without leading and trailing white space.
pub open spec fn spec_trim(s: Seq<char>) -> Seq<char> {
    spec_trim_start(spec_trim_end(s))
}

/// A copy of `s[from..to]`.
pub fn copy_range(s: &[char], from: usize, to: usize) -> (r: Vec<char>)
    requires
        from <= to <= s@.len(),
    ensures
        r@ == s@.subrange(from as int, to as int),
{
    let mut out: Vec<char> = Vec::new();
    let mut i = from;
    while i < to
        invariant
            from <= i <= to,
            to <= s@.len(),
            out@ == s@.subrange(from as int, i as int),
        decreases to - i,
    {
        out.push(s[i]);
        i = i + 1;
        assert(out@ == s@.subrange(from as int, i as int));
    }
    out
}

/// The length of `s` without its trailing white space.
pub fn trim_end_len(s: &[char]) -> (r: usize)
    ensures
        r <= s@.len(),
        spec_trim_end(s@) == s@.subrange(0, r as int),
{
    let mut end = s.len();
    assert(s@.subrange(0, end as int) == s@);
    while end > 0 && is_ws(s[end - 1])
        invariant
            end <= s@.len(),
            spec_trim_end(s@) == spec_trim_end(s@.subrange(0, end as int)),
        decreases end,
    {
        assert(s@.subrange(0, end as int).drop_last() == s@.subrange(0, end - 1));
        end = end - 1;
    }
    end
}

/// The number of leading white-space characters of `s`.
pub fn trim_start_len(s: &[char]) -> (r: usize)
    ensures
        r <= s@.len(),
        spec_trim_start(s@) == s@.subrange(r as int, s@.len() as int),
{
    let mut start: usize = 0;
    assert(s@.subrange(0, s@.len() as int) == s@);
    while start < s.len() && is_ws(s[start])
        invariant
            start <= s@.len(),
            spec_trim_start(s@) == spec_trim_start(s@.subrange(start as int, s@.len() as int)),
        decreases s@.len() - start,
    {
        assert(s@.subrange(start as int, s@.len() as int).drop_first() == s@.subrange(
            start + 1,
            s@.len() as int,
        ));
        start = start + 1;
    }
    start
}

/// `s` without trailing white space.
pub fn trim_end(s: &[char]) -> (r: Vec<char>)
    ensures
        r@ == spec_trim_end(s@),
{
    let e = trim_end_len(s);
    copy_range(s, 0, e)
}

/// `s` without leading white space.
pub fn trim_start(s: &[char]) -> (r: Vec<char>)
    ensures
        r@ == spec_trim_start(s@),
{
    let b = trim_start_len(s);
    copy_range(s, b, s.len())
}

/// `s` without leading or trailing white space.
pub fn trim(s: &[char]) -> (r: Vec<char>)
    ensures
        r@ == spec_trim(s@),
{
    let t = trim_end(s);
    trim_start(t.as_slice())
}

/// Whether `s` begins with `prefix`.
pub open spec fn spec_starts_with(s: Seq<char>, prefix: Seq<char>) -> bool {
    prefix.len() <= s.len() && s.subrange(0, prefix.len() as int) == prefix
}

/// Whether `s` ends with `suffix`.
pub open spec fn spec_ends_with(s: Seq<char>, suffix: Seq<char>) -> bool {
    suffix.len() <= s.len() && s.subrange(s.len() - suffix.len(), s.len() as int) == suffix
}

/// Whether `s[at..]` begins with `prefix`.
pub fn starts_with_at(s: &[char], at: usize, prefix: &[char]) -> (r: bool)
    requires
        at <= s@.len(),
    ensures
        r == spec_starts_with(s@.subrange(at as int, s@.len() as int), prefix@),
{
    if prefix.len() > s.len() - at {
        return false;
    }
    let mut i: usize = 0;
    while i < prefix.len()
        invariant
            i <= prefix@.len(),
            at <= s@.len(),
            at + prefix@.len() <= s@.len(),
            s@.len() <= usize::MAX,
            forall|k: int| 0 <= k < i ==> s@[at + k] == prefix@[k],
        decreases prefix@.len() - i,
    {
        if s[at + i] != prefix[i] {
            assert(s@.subrange(at as int, s@.len() as int).subrange(0, prefix@.len() as int)[i as int]
                != prefix@[i as int]);
            return false;
        }
        i = i + 1;
    }
    assert(s@.subrange(at as int, s@.len() as int).subrange(0, prefix@.len() as int) == prefix@);
    true
}

/// Whether `s` begins with `prefix`.
pub fn starts_with(s: &[char], prefix: &[char]) -> (r: bool)
    ensures
        r == spec_starts_with(s@, prefix@),
{
    assert(s@.subrange(0, s@.len() as int) == s@);
    starts_with_at(s, 0, prefix)
}

/// Whether `s` ends with `suffix`.
pub fn ends_with(s: &[char], suffix: &[char]) -> (r: bool)
    ensures
        r == spec_ends_with(s@, suffix@),
{
    if suffix.len() > s.len() {
        return false;
    }
    let at = s.len() - suffix.len();
    let r = starts_with_at(s, at, suffix);
    assert(s@.subrange(at as int, s@.len() as int).subrange(0, suffix@.len() as int)
        == s@.subrange(at as int, s@.len() as int));
    r
}

/// `s` with `prefix` removed, when `s` begins with it.
pub fn strip_prefix(s: &[char], prefix: &[char]) -> (r: Option<Vec<char>>)
    ensures
        match r {
            Some(rest) => spec_starts_with(s@, prefix@) && rest@ == s@.subrange(
                prefix@.len() as int,
                s@.len() as int,
            ),
            None => !spec_starts_with(s@, prefix@),
        },
{
    if starts_with(s, prefix) {
        Some(copy_range(s, prefix.len(), s.len()))
    } else {
        None
    }
}

/// The first index of `c` in `s`.
pub open spec fn spec_find(s: Seq<char>, c: char) -> Option<int> {
    if exists|i: int| 0 <= i < s.len() && s[i] == c {
        Some(choose|i: int| 0 <= i < s.len() && s[i] == c && forall|j: int| 0 <= j < i ==> s[j] != c)
    } else {
        None
    }
}

/// The first index of `c` in `s`, if any.
pub fn find_char(s: &[char], c: char) -> (r: Option<usize>)
    ensures
        match r {
            Some(i) => i < s@.len() && s@[i as int] == c && forall|j: int| 0 <= j < i ==> s@[j] != c,
            None => forall|j: int| 0 <= j < s@.len() ==> s@[j] != c,
        },
{
    let mut i: usize = 0;
    while i < s.len()
        invariant
            i <= s@.len(),
            forall|j: int| 0 <= j < i ==> s@[j] != c,
        decreases s@.len() - i,
    {
        if s[i] == c {
            return Some(i);
        }
        i = i + 1;
    }
    None
}

/// The last index of `c` in `s`.
pub open spec fn spec_rfind(s: Seq<char>, c: char) -> Option<int> {
    if exists|i: int| 0 <= i < s.len() && s[i] == c {
        Some(choose|i: int| 0 <= i < s.len() && s[i] == c && forall|j: int| i < j < s.len() ==> s[j] != c)
    } else {
        None
    }
}

/// The last index of `c` in `s`, if any.
pub fn rfind_char(s: &[char], c: char) -> (r: Option<usize>)
    ensures
        match r {
            Some(i) => i < s@.len() && s@[i as int] == c && forall|j: int| i < j < s@.len() ==> s@[j] != c,
            None => forall|j: int| 0 <= j < s@.len() ==> s@[j] != c,
        },
{
    let mut i: usize = s.len();
    while i > 0
        invariant
            i <= s@.len(),
            forall|j: int| i <= j < s@.len() ==> s@[j] != c,
        decreases i,
    {
        if s[i - 1] == c {
            return Some(i - 1);
        }
        i = i - 1;
    }
    None
}

/// Whether `c` occurs in `s`.
pub fn contains_char(s: &[char], c: char) -> (r: bool)
    ensures
        r == s@.contains(c),
{
    match find_char(s, c) {
        Some(i) => {
            assert(s@[i as int] == c);
            true
        },
        None => false,
    }
}

/// The first occurrence of `pat` in `s` at or after no earlier match.
pub fn find_str(s: &[char], pat: &[char]) -> (r: Option<usize>)
    ensures
        match r {
            Some(i) => i + pat@.len() <= s@.len() && s@.subrange(i as int, i + pat@.len()) == pat@
                && forall|j: int|
                0 <= j < i ==> !(#[trigger] spec_starts_with(s@.subrange(j, s@.len() as int), pat@)),
            None => forall|j: int|
                0 <= j <= s@.len() ==> !(#[trigger] spec_starts_with(s@.subrange(j, s@.len() as int), pat@)),
        },
{
    let mut i: usize = 0;
    while i <= s.len()
        invariant
            i <= s@.len() + 1,
            forall|j: int|
                0 <= j < i ==> !(#[trigger] spec_starts_with(s@.subrange(j, s@.len() as int), pat@)),
        decreases s@.len() + 1 - i,
    {
        if starts_with_at(s, i, pat) {
            assert(s@.subrange(i as int, s@.len() as int).subrange(0, pat@.len() as int)
                == s@.subrange(i as int, i + pat@.len()));
            return Some(i);
        }
        if i == s.len() {
            return None;
        }
        i = i + 1;
    }
    None
}

/// Lines of text as `str::lines` splits them: at `\n`, dropping a `\r` just before it;
/// a final line needs no terminator, and no empty line follows a final `\n`.
pub open spec fn spec_lines(s: Seq<char>) -> Seq<Seq<char>>
    decreases s.len(),
{
    if s.len() == 0 {
        Seq::empty()
    } else {
        let (done, cur) = spec_lines_acc(s);
        if cur.len() == 0 && s.last() == '\n' {
            done
        } else {
            done.push(cur)
        }
    }
}

/// Completed lines and the current partial line after reading `s`.
pub open spec fn spec_lines_acc(s: Seq<char>) -> (Seq<Seq<char>>, Seq<char>)
    decreases s.len(),
{
    if s.len() == 0 {
        (Seq::empty(), Seq::empty())
    } else {
        let (done, cur) = spec_lines_acc(s.drop_last());
        if s.last() == '\n' {
            (done.push(spec_strip_cr(cur)), Seq::empty())
        } else {
            (done, cur.push(s.last()))
        }
    }
}

/// A line without one trailing carriage return.
pub open spec fn spec_strip_cr(line: Seq<char>) -> Seq<char> {
    if line.len() > 0 && line.last() == '\r' {
        line.drop_last()
    } else {
        line
    }
}

/// The lines of `s` (see `spec_lines`).
pub fn lines(s: &[char]) -> (r: Vec<Vec<char>>)
    ensures
        r@.map_values(|l: Vec<char>| l@) == spec_lines(s@),
{
    let mut done: Vec<Vec<char>> = Vec::new();
    let mut cur: Vec<char> = Vec::new();
    let mut i: usize = 0;
    while i < s.len()
        invariant
            i <= s@.len(),
            (done@.map_values(|l: Vec<char>| l@), cur@) == spec_lines_acc(s@.subrange(0, i as int)),
        decreases s@.len() - i,
    {
        let c = s[i];
        proof {
            assert(s@.subrange(0, i + 1).drop_last() == s@.subrange(0, i as int));
        }
        if c == '\n' {
            let mut line = cur;
            if line.len() > 0 && line[line.len() - 1] == '\r' {
                line.pop();
            }
            done.push(line);
            cur = Vec::new();
        } else {
            cur.push(c);
        }
        i = i + 1;
    }
    assert(s@.subrange(0, s@.len() as int) == s@);
    if cur.len() == 0 && s.len() > 0 && s[s.len() - 1] == '\n' {
        done
    } else if s.len() == 0 {
        done
    } else {
        done.push(cur);
        done
    }
}

/// Decimal digits of a natural number.
pub open spec fn spec_decimal(n: nat) -> Seq<char>
    decreases n,
{
    if n < 10 {
        seq![spec_digit_char(n)]
    } else {
        spec_decimal(n / 10).push(spec_digit_char(n % 10))
    }
}

/// The character of a decimal digit.
pub open spec fn spec_digit_char(d: nat) -> char {
    if d == 0 { '0' } else if d == 1 { '1' } else if d == 2 { '2' } else if d == 3 { '3' }
    else if d == 4 { '4' } else if d == 5 { '5' } else if d == 6 { '6' } else if d == 7 { '7' }
    else if d == 8 { '8' } else { '9' }
}

fn digit_char(d: usize) -> (r: char)
    requires
        d < 10,
    ensures
        r == spec_digit_char(d as nat),
{
    if d == 0 { '0' } else if d == 1 { '1' } else if d == 2 { '2' } else if d == 3 { '3' }
    else if d == 4 { '4' } else if d == 5 { '5' } else if d == 6 { '6' } else if d == 7 { '7' }
    else if d == 8 { '8' } else { '9' }
}

/// Decimal digits of `n`.
pub fn decimal(n: usize) -> (r: Vec<char>)
    ensures
        r@ == spec_decimal(n as nat),
    decreases n,
{
    if n < 10 {
        let mut v = Vec::new();
        v.push(digit_char(n));
        v
    } else {
        let mut v = decimal(n / 10);
        v.push(digit_char(n % 10));
        v
    }
}


/// `s` with every trailing `c` removed.
pub open spec fn spec_trim_end_matches(s: Seq<char>, c: char) -> Seq<char>
    decreases s.len(),
{
    if s.len() > 0 && s.last() == c {
        spec_trim_end_matches(s.drop_last(), c)
    } else {
        s
    }
}

/// `s` with every trailing `c` removed.
pub fn trim_end_matches(s: &[char], c: char) -> (r: Vec<char>)
    ensures
        r@ == spec_trim_end_matches(s@, c),
{
    let mut end = s.len();
    assert(s@.subrange(0, end as int) == s@);
    while end > 0 && s[end - 1] == c
        invariant
            end <= s@.len(),
            spec_trim_end_matches(s@, c) == spec_trim_end_matches(s@.subrange(0, end as int), c),
        decreases end,
    {
        assert(s@.subrange(0, end as int).drop_last() == s@.subrange(0, end - 1));
        end = end - 1;
    }
    copy_range(s, 0, end)
}

/// `s` with every repetition of a leading `prefix` removed.
pub open spec fn spec_trim_start_matches(s: Seq<char>, prefix: Seq<char>) -> Seq<char>
    decreases s.len(),
{
    if prefix.len() > 0 && spec_starts_with(s, prefix) {
        spec_trim_start_matches(s.subrange(prefix.len() as int, s.len() as int), prefix)
    } else {
        s
    }
}

/// `s` with every repetition of a leading `prefix` removed.
pub fn trim_start_matches(s: &[char], prefix: &[char]) -> (r: Vec<char>)
    ensures
        r@ == spec_trim_start_matches(s@, prefix@),
{
    let mut start: usize = 0;
    assert(s@.subrange(0, s@.len() as int) == s@);
    loop
        invariant
            start <= s@.len(),
            spec_trim_start_matches(s@, prefix@) == spec_trim_start_matches(
                s@.subrange(start as int, s@.len() as int),
                prefix@,
            ),
        ensures
            start <= s@.len(),
            spec_trim_start_matches(s@, prefix@) == s@.subrange(start as int, s@.len() as int),
        decreases s@.len() - start,
    {
        if prefix.len() == 0 || !starts_with_at(s, start, prefix) {
            break;
        }
        assert(s@.subrange(start as int, s@.len() as int).subrange(
            prefix@.len() as int,
            s@.len() - start,
        ) == s@.subrange(start + prefix@.len(), s@.len() as int));
        assert(prefix@.len() <= s@.len() - start);
        assert(s@.len() == s.len());
        start = start + prefix.len();
    }
    copy_range(s, start, s.len())
}

/// ASCII lower-casing of one character.
pub open spec fn spec_lower(c: char) -> char {
    if 'A' <= c && c <= 'Z' {
        ((c as u32) + 32) as char
    } else {
        c
    }
}

/// ASCII lower-casing of a character.
pub fn lower(c: char) -> (r: char)
    ensures
        r == spec_lower(c),
{
    if 'A' <= c && c <= 'Z' {
        let v = (c as u32) + 32;
        assert(0x61 <= v <= 0x7a);
        char_from_ascii(v)
    } else {
        c
    }
}

/// The character with a code point below 128.
fn char_from_ascii(v: u32) -> (r: char)
    requires
        v < 128,
    ensures
        r == v as char,
{
    let b = v as u8;
    b as char
}

/// ASCII lower-casing of a text.
pub fn to_ascii_lowercase(s: &[char]) -> (r: Vec<char>)
    ensures
        r@ == s@.map_values(|c: char| spec_lower(c)),
{
    let mut out: Vec<char> = Vec::new();
    let mut i: usize = 0;
    while i < s.len()
        invariant
            i <= s@.len(),
            out@ == s@.subrange(0, i as int).map_values(|c: char| spec_lower(c)),
        decreases s@.len() - i,
    {
        out.push(lower(s[i]));
        i = i + 1;
        assert(out@ == s@.subrange(0, i as int).map_values(|c: char| spec_lower(c)));
    }
    assert(s@.subrange(0, s@.len() as int) == s@);
    out
}

/// The value of a decimal digit character.
pub open spec fn spec_digit_value(c: char) -> nat {
    ((c as u32) - ('0' as u32)) as nat
}

/// The value of a run of decimal digits.
pub open spec fn spec_digits_value(s: Seq<char>) -> nat
    decreases s.len(),
{
    if s.len() == 0 {
        0
    } else {
        spec_digits_value(s.drop_last()) * 10 + spec_digit_value(s.last())
    }
}

/// Whether every character is a decimal digit.
pub open spec fn spec_all_digits(s: Seq<char>) -> bool {
    forall|i: int| 0 <= i < s.len() ==> spec_is_digit(#[trigger] s[i])
}

/// `u16::from_str`: an optional `+`, then one or more decimal digits, at most 65535.
pub open spec fn spec_parse_u16(s: Seq<char>) -> Option<u16> {
    let digits = spec_unsigned_digits(s);
    if digits.len() > 0 && spec_all_digits(digits) && spec_digits_value(digits) <= 65535 {
        Some(spec_digits_value(digits) as u16)
    } else {
        None
    }
}

/// The digits of an unsigned literal: the text after an optional leading `+`.
pub open spec fn spec_unsigned_digits(s: Seq<char>) -> Seq<char> {
    if s.len() > 0 && s[0] == '+' {
        s.drop_first()
    } else {
        s
    }
}

/// `u16::from_str` on characters.
pub fn parse_u16(s: &[char]) -> (r: Option<u16>)
    ensures
        r == spec_parse_u16(s@),
{
    let start: usize = if s.len() > 0 && s[0] == '+' { 1 } else { 0 };
    let ghost digits = spec_unsigned_digits(s@);
    assert(digits == s@.subrange(start as int, s@.len() as int));
    if start >= s.len() {
        return None;
    }
    let mut value: u32 = 0;
    let mut i = start;
    while i < s.len()
        invariant
            start <= i <= s@.len(),
            digits == s@.subrange(start as int, s@.len() as int),
            digits == spec_unsigned_digits(s@),
            spec_all_digits(s@.subrange(start as int, i as int)),
            value == spec_digits_value(s@.subrange(start as int, i as int)),
            value <= 65535,
        decreases s@.len() - i,
    {
        let c = s[i];
        proof {
            assert(s@.subrange(start as int, i + 1).drop_last() == s@.subrange(start as int, i as int));
        }
        if !is_digit(c) {
            assert(!spec_all_digits(digits)) by {
                assert(digits[i - start] == c);
                assert(!spec_is_digit(digits[i - start]));
            }
            assert(spec_parse_u16(s@) is None);
            return None;
        }
        let d = (c as u32) - ('0' as u32);
        let next = value * 10 + d;
        i = i + 1;
        if next > 65535 {
            proof {
                let a = s@.subrange(start as int, i as int);
                assert(a.drop_last() == s@.subrange(start as int, i - 1));
                assert(spec_digits_value(a) == next);
                if spec_all_digits(digits) {
                    assert(a == digits.subrange(0, a.len() as int));
                    lemma_digits_value_grows(a, digits);
                }
            }
            assert(spec_parse_u16(s@) is None);
            return None;
        }
        value = next;
    }
    Some(value as u16)
}

proof fn lemma_digits_value_grows(a: Seq<char>, b: Seq<char>)
    requires
        a.len() <= b.len(),
        a == b.subrange(0, a.len() as int),
        spec_all_digits(b),
    ensures
        spec_digits_value(a) <= spec_digits_value(b),
    decreases b.len(),
{
    if a.len() < b.len() {
        assert(b.drop_last().subrange(0, a.len() as int) == a);
        assert(spec_all_digits(b.drop_last())) by {
            assert forall|i: int| 0 <= i < b.drop_last().len() implies spec_is_digit(#[trigger] b.drop_last()[i]) by {
                assert(b.drop_last()[i] == b[i]);
            }
        }
        lemma_digits_value_grows(a, b.drop_last());
    } else {
        assert(a == b);
    }
}


pub proof fn lemma_trim_end_len(s: Seq<char>)
    ensures
        spec_trim_end(s).len() <= s.len(),
    decreases s.len(),
{
    if s.len() > 0 && spec_is_ws(s.last()) {
        lemma_trim_end_len(s.drop_last());
    }
}

pub proof fn lemma_trim_start_len(s: Seq<char>)
    ensures
        spec_trim_start(s).len() <= s.len(),
    decreases s.len(),
{
    if s.len() > 0 && spec_is_ws(s[0]) {
        lemma_trim_start_len(s.drop_first());
    }
}

pub proof fn lemma_trim_len(s: Seq<char>)
    ensures
        spec_trim(s).len() <= s.len(),
{
    lemma_trim_end_len(s);
    lemma_trim_start_len(spec_trim_end(s));
}

pub proof fn lemma_trim_end_matches_len(s: Seq<char>, c: char)
    ensures
        spec_trim_end_matches(s, c).len() <= s.len(),
    decreases s.len(),
{
    if s.len() > 0 && s.last() == c {
        lemma_trim_end_matches_len(s.drop_last(), c);
    }
}

/// The value of `c` as a digit in base `radix`, as `char::to_digit` gives it.
pub open spec fn spec_radix_digit(c: char, radix: nat) -> Option<nat> {
    let v: int = if '0' <= c && c <= '9' {
        (c as int) - ('0' as int)
    } else if 'a' <= c && c <= 'z' {
        (c as int) - ('a' as int) + 10
    } else if 'A' <= c && c <= 'Z' {
        (c as int) - ('A' as int) + 10
    } else {
        36
    };
    if v < radix {
        Some(v as nat)
    } else {
        None
    }
}

/// Whether every character is a digit in base `radix`.
pub open spec fn spec_all_radix_digits(s: Seq<char>, radix: nat) -> bool {
    forall|i: int| 0 <= i < s.len() ==> #[trigger] spec_radix_digit(s[i], radix) is Some
}

/// The value of a run of digits in base `radix`.
pub open spec fn spec_radix_value(s: Seq<char>, radix: nat) -> nat
    decreases s.len(),
{
    if s.len() == 0 {
        0
    } else {
        spec_radix_value(s.drop_last(), radix) * radix + match spec_radix_digit(s.last(), radix) {
            Some(d) => d,
            None => 0,
        }
    }
}

/// The digits of a signed literal: the text after an optional leading sign.
pub open spec fn spec_signed_digits(s: Seq<char>) -> Seq<char> {
    if s.len() > 0 && (s[0] == '-' || s[0] == '+') {
        s.drop_first()
    } else {
        s
    }
}

/// `i64::from_str_radix`: an optional sign, then one or more digits of the base, with a
/// value that fits in 64 signed bits.
pub open spec fn spec_parse_i64(s: Seq<char>, radix: nat) -> Option<i64> {
    let digits = spec_signed_digits(s);
    let magnitude = spec_radix_value(digits, radix) as int;
    let v: int = if s.len() > 0 && s[0] == '-' { -magnitude } else { magnitude };
    if digits.len() > 0 && spec_all_radix_digits(digits, radix) && i64::MIN <= v && v <= i64::MAX {
        Some(v as i64)
    } else {
        None
    }
}

/// The digit value of `c` in base `radix`.
fn radix_digit(c: char, radix: u32) -> (r: Option<u32>)
    requires
        radix <= 36,
    ensures
        match spec_radix_digit(c, radix as nat) {
            Some(d) => r == Some(d as u32),
            None => r is None,
        },
{
    let v: u32 = if '0' <= c && c <= '9' {
        (c as u32) - ('0' as u32)
    } else if 'a' <= c && c <= 'z' {
        (c as u32) - ('a' as u32) + 10
    } else if 'A' <= c && c <= 'Z' {
        (c as u32) - ('A' as u32) + 10
    } else {
        36
    };
    if v < radix {
        Some(v)
    } else {
        None
    }
}

proof fn lemma_radix_value_grows(a: Seq<char>, b: Seq<char>, radix: nat)
    requires
        radix >= 1,
        a.len() <= b.len(),
        a == b.subrange(0, a.len() as int),
    ensures
        spec_radix_value(a, radix) <= spec_radix_value(b, radix),
    decreases b.len(),
{
    if a.len() < b.len() {
        assert(b.drop_last().subrange(0, a.len() as int) == a);
        lemma_radix_value_grows(a, b.drop_last(), radix);
        let p = spec_radix_value(b.drop_last(), radix);
        assert(p * radix >= p) by (nonlinear_arith)
            requires radix >= 1, p >= 0;
    } else {
        assert(a == b);
    }
}

/// `i64::from_str_radix` on characters, for bases 10 and 16.
pub fn parse_i64(s: &[char], radix: u32) -> (r: Option<i64>)
    requires
        radix == 10 || radix == 16,
    ensures
        r == spec_parse_i64(s@, radix as nat),
{
    let neg = s.len() > 0 && s[0] == '-';
    let start: usize = if s.len() > 0 && (s[0] == '-' || s[0] == '+') { 1 } else { 0 };
    let ghost digits = spec_signed_digits(s@);
    assert(digits == s@.subrange(start as int, s@.len() as int));
    if start >= s.len() {
        return None;
    }
    let limit: u128 = 0x8000_0000_0000_0000;
    let mut value: u128 = 0;
    let mut i = start;
    while i < s.len()
        invariant
            start <= i <= s@.len(),
            radix == 10 || radix == 16,
            digits == s@.subrange(start as int, s@.len() as int),
            spec_all_radix_digits(s@.subrange(start as int, i as int), radix as nat),
            value == spec_radix_value(s@.subrange(start as int, i as int), radix as nat),
            value <= limit,
            limit == 0x8000_0000_0000_0000,
            digits == spec_signed_digits(s@),
        decreases s@.len() - i,
    {
        let c = s[i];
        let ghost a = s@.subrange(start as int, i + 1);
        proof {
            assert(a.drop_last() == s@.subrange(start as int, i as int));
        }
        let d = match radix_digit(c, radix) {
            Some(d) => d,
            None => {
                assert(digits[i - start] == c);
                assert(spec_radix_digit(digits[i - start], radix as nat) is None);
                assert(!spec_all_radix_digits(digits, radix as nat));
                return None;
            },
        };
        assert(d < 16);
        assert(value * (radix as u128) <= limit * 16) by (nonlinear_arith)
            requires value <= limit, radix <= 16;
        let next: u128 = value * (radix as u128) + (d as u128);
        i = i + 1;
        assert(spec_all_radix_digits(a, radix as nat)) by {
            assert forall|k: int| 0 <= k < a.len() implies #[trigger] spec_radix_digit(a[k], radix as nat) is Some by {
                if k < a.len() - 1 {
                    assert(a[k] == s@.subrange(start as int, i - 1)[k]);
                }
            }
        }
        assert(next == spec_radix_value(a, radix as nat));
        if next > limit {
            proof {
                if spec_all_radix_digits(digits, radix as nat) {
                    assert(a == digits.subrange(0, a.len() as int));
                    lemma_radix_value_grows(a, digits, radix as nat);
                }
            }
            return None;
        }
        value = next;
    }
    assert(s@.subrange(start as int, s@.len() as int) == digits);
    if neg {
        if value == limit {
            Some(i64::MIN)
        } else {
            let v = value as i64;
            Some(-v)
        }
    } else {
        if value >= limit {
            None
        } else {
            Some(value as i64)
        }
    }
}

/// The concatenation of the first `n` pieces.
pub open spec fn spec_concat(parts: Seq<&str>, n: int) -> Seq<char>
    decreases n,
{
    if n <= 0 || n > parts.len() {
        Seq::empty()
    } else {
        spec_concat(parts, n - 1) + parts[n - 1]@
    }
}

/// An error message built from pieces.
pub fn message(parts: &[&str]) -> (r: String)
    ensures
        r@ == spec_concat(parts@, parts@.len() as int),
{
    let mut out: Vec<char> = Vec::new();
    let mut i: usize = 0;
    while i < parts.len()
        invariant
            i <= parts@.len(),
            out@ == spec_concat(parts@, i as int),
        decreases parts@.len() - i,
    {
        let mut cs = to_chars(parts[i]);
        out.append(&mut cs);
        i = i + 1;
    }
    from_chars(out.as_slice())
}

} // verus!

//! Text helpers: turning `PascalCase` identifiers into sentences and taking
//! the last segment of a type path.
use vstd::prelude::*;

verus! {

/// An ASCII capital letter.
pub open spec fn is_upper(c: char) -> bool {
    'A' <= c <= 'Z'
}

/// ASCII whitespace: space, tab, line feed, form feed, carriage return.
pub open spec fn is_ascii_ws(c: char) -> bool {
    c == ' ' || c == '\t' || c == '\n' || c == '\x0C' || c == '\r'
}

/// Unicode `White_Space`.
pub open spec fn is_white_space(c: char) -> bool {
    ('\t' <= c <= '\r') || c == ' ' || c == '\u{85}' || c == '\u{A0}' || c == '\u{1680}'
        || ('\u{2000}' <= c <= '\u{200A}') || c == '\u{2028}' || c == '\u{2029}' || c == '\u{202F}'
        || c == '\u{205F}' || c == '\u{3000}'
}

/// The lower-case form of an ASCII capital; other characters are unchanged.
pub open spec fn to_lower(c: char) -> char {
    if is_upper(c) {
        ((c as u32) + 32) as char
    } else {
        c
    }
}

/// Number of `White_Space` characters at the start of `s`.
pub open spec fn leading_ws(s: Seq<char>) -> nat
    decreases s.len(),
{
    if s.len() > 0 && is_white_space(s[0]) {
        1 + leading_ws(s.drop_first())
    } else {
        0
    }
}

/// Number of `White_Space` characters at the end of `s`.
pub open spec fn trailing_ws(s: Seq<char>) -> nat
    decreases s.len(),
{
    if s.len() > 0 && is_white_space(s.last()) {
        1 + trailing_ws(s.drop_last())
    } else {
        0
    }
}

/// `s` without leading and trailing `White_Space`.
pub open spec fn trimmed(s: Seq<char>) -> Seq<char> {
    if leading_ws(s) == s.len() {
        Seq::empty()
    } else {
        s.subrange(leading_ws(s) as int, s.len() - trailing_ws(s))
    }
}

/// `s` has ASCII whitespace between two other characters, i.e. it reads as several words.
pub open spec fn is_sentence(s: Seq<char>) -> bool {
    exists|i: int| 0 <= i < trimmed(s).len() && #[trigger] is_ascii_ws(trimmed(s)[i])
}

/// Every character of `s` is an ASCII capital.
pub open spec fn all_upper(s: Seq<char>) -> bool {
    forall|i: int| 0 <= i < s.len() ==> #[trigger] is_upper(s[i])
}

/// `s` with a space inserted before each capital after the first
/// character, and those capitals lowered.
pub open spec fn spaced_lower(s: Seq<char>) -> Seq<char>
    decreases s.len(),
{
    if s.len() <= 1 {
        s
    } else {
        let t = spaced_lower(s.drop_last());
        if is_upper(s.last()) {
            t + seq![' ', to_lower(s.last())]
        } else {
            t.push(s.last())
        }
    }
}

/// What `pascal_to_sentence_ascii` gives for `s`.
pub open spec fn pascal_to_sentence(s: Seq<char>) -> Option<Seq<char>> {
    if is_sentence(s) {
        Some(s)
    } else if all_upper(s) {
        None
    } else {
        Some(spaced_lower(s))
    }
}

/// A run of `White_Space` at the start of `s` that stops at index `i`
/// (at the end or before another character) is what `leading_ws` counts.
proof fn lemma_leading_ws(s: Seq<char>, i: int)
    requires
        0 <= i <= s.len(),
        forall|j: int| 0 <= j < i ==> is_white_space(#[trigger] s[j]),
        i == s.len() || !is_white_space(s[i]),
    ensures
        leading_ws(s) == i,
    decreases i,
{
    if i > 0 {
        let t = s.drop_first();
        assert forall|j: int| 0 <= j < i - 1 implies is_white_space(#[trigger] t[j]) by {
            assert(t[j] == s[j + 1]);
        }
        if i < s.len() {
            assert(t[i - 1] == s[i]);
        }
        lemma_leading_ws(t, i - 1);
    }
}

/// A run of `k` `White_Space` characters at the end of `s`, with no more
/// before it, is what `trailing_ws` counts.
proof fn lemma_trailing_ws(s: Seq<char>, k: int)
    requires
        0 <= k <= s.len(),
        forall|j: int| s.len() - k <= j < s.len() ==> is_white_space(#[trigger] s[j]),
        k == s.len() || !is_white_space(s[s.len() - 1 - k]),
    ensures
        trailing_ws(s) == k,
    decreases k,
{
    if k > 0 {
        let t = s.drop_last();
        assert forall|j: int| t.len() - (k - 1) <= j < t.len() implies is_white_space(#[trigger] t[j]) by {
            assert(t[j] == s[j]);
        }
        if k < s.len() {
            assert(t[t.len() - 1 - (k - 1)] == s[s.len() - 1 - k]);
        }
        assert(is_white_space(s[s.len() - 1]));
        lemma_trailing_ws(t, k - 1);
    }
}

fn is_white_space_char(c: char) -> (r: bool)
    ensures
        r == is_white_space(c),
{
    ('\t' <= c && c <= '\r') || c == ' ' || c == '\u{85}' || c == '\u{A0}' || c == '\u{1680}'
        || ('\u{2000}' <= c && c <= '\u{200A}') || c == '\u{2028}' || c == '\u{2029}' || c == '\u{202F}'
        || c == '\u{205F}' || c == '\u{3000}'
}

/// `s` without leading and trailing Unicode `White_Space`, as `str::trim`
/// gives it.
fn trim_white_space(s: &str) -> (r: &str)
    ensures
        r@ == trimmed(s@),
{
    let len = s.unicode_len();
    let mut lo: usize = 0;
    while lo < len && is_white_space_char(s.get_char(lo))
        invariant
            len == s@.len(),
            lo <= len,
            forall|j: int| 0 <= j < lo ==> is_white_space(#[trigger] s@[j]),
        decreases len - lo,
    {
        lo = lo + 1;
    }
    proof {
        lemma_leading_ws(s@, lo as int);
    }
    if lo == len {
        return s.substring_char(0, 0);
    }
    let mut hi: usize = len;
    while hi > lo && is_white_space_char(s.get_char(hi - 1))
        invariant
            len == s@.len(),
            lo < len,
            !is_white_space(s@[lo as int]),
            lo <= hi <= len,
            forall|j: int| hi <= j < len ==> is_white_space(#[trigger] s@[j]),
        decreases hi,
    {
        hi = hi - 1;
    }
    proof {
        lemma_trailing_ws(s@, len - hi);
    }
    s.substring_char(lo, hi)
}

/// `String::push`: appends one character.
#[verifier::external_body]
fn push_char(s: &mut String, c: char)
    ensures
        final(s)@ == old(s)@.push(c),
{
    s.push(c)
}

fn is_upper_char(c: char) -> (r: bool)
    ensures
        r == is_upper(c),
{
    'A' <= c && c <= 'Z'
}

fn is_ascii_ws_char(c: char) -> (r: bool)
    ensures
        r == is_ascii_ws(c),
{
    c == ' ' || c == '\t' || c == '\n' || c == '\x0C' || c == '\r'
}

fn lower_char(c: char) -> (r: char)
    requires
        is_upper(c),
    ensures
        r == to_lower(c),
{
    let code: u8 = c as u8;
    (code + 32) as char
}

/// Turns `"PascalCase"` into `"Pascal case"`; text that already reads as a
/// sentence is returned as it is, and all-capital text gives `None`.
pub fn pascal_to_sentence_ascii(string: &str) -> (r: Option<String>)
    requires
        vstd::utf8::is_ascii_chars(string@),
    ensures
        r is Some <==> pascal_to_sentence(string@) is Some,
        r matches Some(t) ==> t@ == pascal_to_sentence(string@)->Some_0,
{
    let inner = trim_white_space(string);
    let inner_len = inner.unicode_len();
    let mut i: usize = 0;
    while i < inner_len
        invariant
            inner_len == inner@.len(),
            inner@ == trimmed(string@),
            i <= inner_len,
            forall|j: int| 0 <= j < i ==> !is_ascii_ws(inner@[j]),
        decreases inner_len - i,
    {
        if is_ascii_ws_char(inner.get_char(i)) {
            assert(is_ascii_ws(trimmed(string@)[i as int]));
            return Some(String::from_str(string));
        }
        i = i + 1;
    }
    let len = string.unicode_len();
    let mut all_caps = true;
    let mut k: usize = 0;
    while k < len
        invariant
            len == string@.len(),
            k <= len,
            all_caps == forall|j: int| 0 <= j < k ==> #[trigger] is_upper(string@[j]),
        decreases len - k,
    {
        if !is_upper_char(string.get_char(k)) {
            all_caps = false;
        }
        k = k + 1;
    }
    if all_caps {
        return None;
    }
    let mut out = String::new();
    let mut n: usize = 0;
    while n < len
        invariant
            len == string@.len(),
            n <= len,
            n == 0 ==> out@ == Seq::<char>::empty(),
            n > 0 ==> out@ == spaced_lower(string@.take(n as int)),
        decreases len - n,
    {
        let c = string.get_char(n);
        proof {
            if n > 0 {
                assert(string@.take(n + 1).drop_last() =~= string@.take(n as int));
            } else {
                assert(string@.take(1) =~= seq![c]);
            }
        }
        if n > 0 && is_upper_char(c) {
            push_char(&mut out, ' ');
            push_char(&mut out, lower_char(c));
            proof {
                assert(out@ =~= spaced_lower(string@.take(n as int)) + seq![' ', to_lower(c)]);
            }
        } else {
            push_char(&mut out, c);
        }
        n = n + 1;
    }
    assert(string@.take(len as int) =~= string@);
    proof {
        if len == 0 {
            assert(all_upper(string@));
        }
    }
    Some(out)
}

/// The start of the last `"::"`-separated segment of `s`, scanning from
/// `i` with the current segment starting at `start`; separators are found
/// left to right without overlapping.
pub open spec fn segment_start(s: Seq<char>, i: int, start: int) -> int
    decreases s.len() - i,
{
    if i < 0 || i + 1 >= s.len() {
        start
    } else if s[i] == ':' && s[i + 1] == ':' {
        segment_start(s, i + 2, i + 2)
    } else {
        segment_start(s, i + 1, start)
    }
}

/// The last piece of `s` when it is split at `"::"`.
pub open spec fn last_segment(s: Seq<char>) -> Seq<char> {
    s.subrange(segment_start(s, 0, 0), s.len() as int)
}

pub proof fn lemma_segment_start_bounds(s: Seq<char>, i: int, start: int)
    requires
        0 <= start <= s.len(),
        0 <= i,
        start <= i + 1 || i + 1 >= s.len(),
    ensures
        0 <= segment_start(s, i, start) <= s.len(),
    decreases s.len() - i,
{
    if i + 1 >= s.len() {
    } else if s[i] == ':' && s[i + 1] == ':' {
        lemma_segment_start_bounds(s, i + 2, i + 2);
    } else {
        lemma_segment_start_bounds(s, i + 1, start);
    }
}

/// The last `"::"`-separated segment of `path`.
pub fn last_path_segment(path: &str) -> (r: &str)
    ensures
        r@ == last_segment(path@),
{
    let len = path.unicode_len();
    let mut i: usize = 0;
    let mut start: usize = 0;
    while len > 0 && i < len - 1
        invariant
            len == path@.len(),
            start <= i <= len,
            segment_start(path@, 0, 0) == segment_start(path@, i as int, start as int),
        decreases len - i,
    {
        if path.get_char(i) == ':' && path.get_char(i + 1) == ':' {
            i = i + 2;
            start = i;
        } else {
            i = i + 1;
        }
    }
    path.substring_char(start, len)
}

/// Whether `s` holds `'<'` or `'>'`.
pub open spec fn has_angle_bracket(s: Seq<char>) -> bool {
    s.contains('<') || s.contains('>')
}

/// The last path segment of `path`; `None` for paths with generic
/// arguments (holding `<` or `>`).
pub fn plain_path_last_segment(path: &str) -> (r: Option<&str>)
    ensures
        r is None <==> has_angle_bracket(path@),
        r matches Some(s) ==> s@ == last_segment(path@),
{
    let len = path.unicode_len();
    let mut i: usize = 0;
    while i < len
        invariant
            len == path@.len(),
            i <= len,
            forall|j: int| 0 <= j < i ==> path@[j] != '<' && path@[j] != '>',
        decreases len - i,
    {
        let c = path.get_char(i);
        if c == '<' || c == '>' {
            assert(path@[i as int] == c);
            return None;
        }
        i = i + 1;
    }
    Some(last_path_segment(path))
}

} // verus!

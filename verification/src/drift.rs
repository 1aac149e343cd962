//! What a stale verdict is read with: the hunks of a change that touch an
//! observed region, locating an observed unit in a file, and bounding text.
//! None of these ever decide a freshness verdict.

use vstd::prelude::*;
use vstd::string::*;
use vstd::utf8::*;

use crate::model::ObservationSelector;
use crate::text::{chars_of, char_is_whitespace, is_whitespace, string_from_chars, utf8};

verus! {

// ---------------------------------------------------------------------------
// Occurrence counting.
/// Non-overlapping occurrences of `n` in `h` from position `i` on.
pub open spec fn count_from(h: Seq<u8>, n: Seq<u8>, i: int) -> nat
    decreases h.len() - i,
{
    if n.len() == 0 || i < 0 || i + n.len() > h.len() {
        0
    } else if h.subrange(i, i + n.len() as int) == n {
        1 + count_from(h, n, i + n.len())
    } else {
        count_from(h, n, i + 1)
    }
}

/// Non-overlapping occurrences of `needle` in `haystack`; an empty needle
/// occurs nowhere.
pub open spec fn occurrences(haystack: Seq<u8>, needle: Seq<u8>) -> nat {
    count_from(haystack, needle, 0)
}

fn matches_at(h: &[u8], n: &[u8], i: usize) -> (r: bool)
    requires
        i + n@.len() <= h@.len(),
        h@.len() <= usize::MAX,
    ensures
        r == (h@.subrange(i as int, i + n@.len()) == n@),
{
    let mut k: usize = 0;
    while k < n.len()
        invariant
            k <= n@.len(),
            i + n@.len() <= h@.len(),
            h@.len() <= usize::MAX,
            forall|m: int| 0 <= m < k ==> h@[i + m] == n@[m],
        decreases n.len() - k,
    {
        if h[i + k] != n[k] {
            assert(h@.subrange(i as int, i + n@.len())[k as int] != n@[k as int]);
            return false;
        }
        k = k + 1;
    }
    assert(h@.subrange(i as int, i + n@.len()) =~= n@);
    true
}

/// Count non-overlapping occurrences of `needle` in `haystack`.
pub fn count_subslice(haystack: &[u8], needle: &[u8]) -> (r: usize)
    ensures
        r == occurrences(haystack@, needle@),
{
    proof {
        broadcast use vstd::slice::axiom_spec_len;
    }
    if needle.len() == 0 || needle.len() > haystack.len() {
        return 0;
    }
    let mut count: usize = 0;
    let mut index: usize = 0;
    while index <= haystack.len() - needle.len()
        invariant
            0 < needle@.len() <= haystack@.len() <= usize::MAX,
            index <= haystack@.len(),
            count <= index,
            count + count_from(haystack@, needle@, index as int) == count_from(haystack@, needle@, 0),
        decreases haystack.len() - index,
    {
        if matches_at(haystack, needle, index) {
            count = count + 1;
            index = index + needle.len();
        } else {
            index = index + 1;
        }
    }
    count
}

// ---------------------------------------------------------------------------
// Selector coordinates.
/// How many newline bytes `b` holds.
pub open spec fn newlines(b: Seq<u8>) -> nat
    decreases b.len(),
{
    if b.len() == 0 {
        0
    } else {
        newlines(b.drop_last()) + if b.last() == 10u8 {
            1nat
        } else {
            0nat
        }
    }
}

/// The one-indexed line holding byte `byte` of `b`, clamped to its end.
pub open spec fn line_at(b: Seq<u8>, byte: nat) -> nat {
    newlines(b.take(if byte <= b.len() { byte as int } else { b.len() as int })) + 1
}

pub open spec fn line_span_spec(b: Seq<u8>, selector: ObservationSelector) -> Option<(nat, nat)> {
    match selector {
        ObservationSelector::WholeFile => None,
        ObservationSelector::ByteRange { start, end } => Some(
            (line_at(b, start as nat), line_at(b, end as nat)),
        ),
    }
}

fn line_at_exec(b: &[u8], byte: usize) -> (r: usize)
    requires
        b@.len() < usize::MAX,
    ensures
        r == line_at(b@, byte as nat),
{
    let limit = if byte <= b.len() {
        byte
    } else {
        b.len()
    };
    let mut count: usize = 0;
    let mut i: usize = 0;
    while i < limit
        invariant
            i <= limit <= b@.len(),
            count == newlines(b@.take(i as int)),
            count <= i,
        decreases limit - i,
    {
        assert(b@.take(i + 1).drop_last() =~= b@.take(i as int));
        if b[i] == 10u8 {
            count = count + 1;
        }
        i = i + 1;
    }
    count + 1
}

/// One-indexed inclusive line span a selector covers in `text`; `None` for
/// the whole file.
pub fn selector_line_span(text: &str, selector: &ObservationSelector) -> (r: Option<(usize, usize)>)
    requires
        utf8(text@).len() < usize::MAX,
    ensures
        match r {
            Some((a, b)) => line_span_spec(utf8(text@), *selector) == Some((a as nat, b as nat)),
            None => line_span_spec(utf8(text@), *selector) is None,
        },
{
    match selector {
        ObservationSelector::WholeFile => None,
        ObservationSelector::ByteRange { start, end } => {
            let b = text.as_bytes();
            Some((line_at_exec(b, *start), line_at_exec(b, *end)))
        },
    }
}

/// The bytes a selector covers when they form a valid string window:
/// in range, ordered and on character boundaries. Otherwise the whole text.
pub open spec fn window_fits(b: Seq<u8>, start: int, end: int) -> bool {
    &&& 0 <= start <= end <= b.len()
    &&& is_char_boundary(b, start)
    &&& is_char_boundary(b, end)
}

pub open spec fn selector_window_spec(b: Seq<u8>, selector: ObservationSelector) -> Seq<u8> {
    match selector {
        ObservationSelector::WholeFile => b,
        ObservationSelector::ByteRange { start, end } => {
            let e = if end >= start { end as int } else { start as int };
            if window_fits(b, start as int, e) {
                b.subrange(start as int, e)
            } else {
                b
            }
        },
    }
}

proof fn lemma_prefix_boundary(b: Seq<u8>, e: int, s: int)
    requires
        valid_utf8(b),
        0 <= s <= e <= b.len(),
        is_char_boundary(b, e),
        is_char_boundary(b, s),
    ensures
        valid_utf8(b.subrange(0, e)),
        is_char_boundary(b.subrange(0, e), s),
{
    broadcast use valid_utf8_split, is_char_boundary_start_end_of_seq,
        is_char_boundary_iff_not_is_continuation_byte;

    let p = b.subrange(0, e);
    assert(valid_utf8(p));
    if s < e {
        assert(p[s] == b[s]);
        assert(!is_continuation_byte(b[s]));
    } else {
        assert(p.len() == s);
    }
}

/// The current text at the selector, falling back to the whole text when
/// the recorded range does not form a valid window.
pub fn selector_window<'a>(text: &'a str, selector: &ObservationSelector) -> (r: &'a str)
    ensures
        utf8(r@) == selector_window_spec(utf8(text@), *selector),
{
    broadcast use encode_utf8_valid_utf8;

    match selector {
        ObservationSelector::WholeFile => {
            assert(utf8(text@) == selector_window_spec(utf8(text@), *selector));
            text
        },
        ObservationSelector::ByteRange { start, end } => {
            let s = *start;
            let e = if *end >= s {
                *end
            } else {
                s
            };
            let n = crate::text::utf8_len(text);
            if e <= n && text.is_char_boundary(s) && text.is_char_boundary(e) {
                proof {
                    lemma_prefix_boundary(utf8(text@), e as int, s as int);
                }
                let (head, _) = text.split_at(e);
                let (_, mid) = head.split_at(s);
                assert(mid.spec_bytes() =~= utf8(text@).subrange(s as int, e as int));
                mid
            } else {
                text
            }
        },
    }
}

// ---------------------------------------------------------------------------
// Bounded text.
/// The largest character boundary of `b` at or below `m`.
pub open spec fn boundary_below(b: Seq<u8>, m: int) -> int
    decreases m,
{
    if m <= 0 {
        0
    } else if is_char_boundary(b, m) {
        m
    } else {
        boundary_below(b, m - 1)
    }
}

/// `text` cut to at most `max_bytes` bytes on a character boundary, and
/// whether anything was cut.
pub fn cap_text(text: &str, max_bytes: usize) -> (r: (String, bool))
    ensures
        utf8(text@).len() <= max_bytes ==> r.0@ == text@ && !r.1,
        utf8(text@).len() > max_bytes ==> utf8(r.0@) == utf8(text@).take(
            boundary_below(utf8(text@), max_bytes as int),
        ) && r.1,
{
    broadcast use encode_utf8_valid_utf8, is_char_boundary_start_end_of_seq;

    if crate::text::utf8_len(text) <= max_bytes {
        return (text.to_owned(), false);
    }
    let mut end = max_bytes;
    while end > 0 && !text.is_char_boundary(end)
        invariant
            end <= max_bytes < utf8(text@).len(),
            boundary_below(utf8(text@), max_bytes as int) == boundary_below(utf8(text@), end as int),
        decreases end,
    {
        end = end - 1;
    }
    let (head, _) = text.split_at(end);
    assert(head.spec_bytes() =~= utf8(text@).take(end as int));
    (head.to_owned(), true)
}

// ---------------------------------------------------------------------------
// Hunk headers.
/// `k` starts a whitespace-separated token of `s`.
pub open spec fn is_token_start(s: Seq<char>, k: int) -> bool {
    0 <= k < s.len() && !is_whitespace(s[k]) && (k == 0 || is_whitespace(s[k - 1]))
}

/// `i` starts the first token of `s` that begins with `+`.
pub open spec fn first_plus_token(s: Seq<char>, i: int) -> bool {
    &&& is_token_start(s, i)
    &&& s[i] == '+'
    &&& forall|k: int| 0 <= k < i && #[trigger] is_token_start(s, k) ==> s[k] != '+'
}

/// Where the token running from `i` ends.
pub open spec fn token_end(s: Seq<char>, i: int) -> int
    decreases s.len() - i,
{
    if i < 0 || i >= s.len() || is_whitespace(s[i]) {
        i
    } else {
        token_end(s, i + 1)
    }
}

/// The first `,` of `t` at or after `j`, or the end.
pub open spec fn comma_at(t: Seq<char>, j: int) -> int
    decreases t.len() - j,
{
    if j < 0 || j >= t.len() || t[j] == ',' {
        j
    } else {
        comma_at(t, j + 1)
    }
}

pub open spec fn is_digit(c: char) -> bool {
    '0' <= c <= '9'
}

pub open spec fn digits_value(t: Seq<char>) -> nat
    decreases t.len(),
{
    if t.len() == 0 {
        0
    } else {
        digits_value(t.drop_last()) * 10 + (t.last() as nat - '0' as nat) as nat
    }
}

pub open spec fn strip_plus(t: Seq<char>) -> Seq<char> {
    if t.len() > 0 && t[0] == '+' {
        t.drop_first()
    } else {
        t
    }
}

/// One or more ASCII digits whose value fits in `usize`.
pub open spec fn parse_digits_spec(u: Seq<char>) -> Option<nat> {
    if u.len() > 0 && (forall|i: int| 0 <= i < u.len() ==> is_digit(#[trigger] u[i])) && digits_value(
        u,
    ) <= usize::MAX {
        Some(digits_value(u))
    } else {
        None
    }
}

/// `usize::from_str`: an optional `+`, then one or more ASCII digits whose
/// value fits in `usize`.
pub open spec fn parse_usize_spec(t: Seq<char>) -> Option<nat> {
    parse_digits_spec(strip_plus(t))
}

/// Whether a `@@ -a,b +c,d @@` header's new-file span `[c, c+d)` meets the
/// inclusive `[lo, hi]`. A header without a readable start is kept.
pub open spec fn hunk_overlaps_spec(h: Seq<char>, lo: nat, hi: nat) -> bool {
    if exists|i: int| first_plus_token(h, i) {
        let i = choose|i: int| first_plus_token(h, i);
        let body = h.subrange(i + 1, token_end(h, i));
        let c1 = comma_at(body, 0);
        match parse_usize_spec(body.take(c1)) {
            None => true,
            Some(start) => {
                let count: nat = if c1 < body.len() {
                    match parse_usize_spec(body.subrange(c1 + 1, comma_at(body, c1 + 1))) {
                        Some(c) => c,
                        None => 1,
                    }
                } else {
                    1
                };
                start <= hi && lo <= start + (if count >= 1 {
                    count - 1
                } else {
                    0
                })
            },
        }
    } else {
        true
    }
}

proof fn lemma_first_plus_unique(s: Seq<char>, i: int, j: int)
    requires
        first_plus_token(s, i),
        first_plus_token(s, j),
    ensures
        i == j,
{
    if i < j {
        assert(is_token_start(s, i));
    } else if j < i {
        assert(is_token_start(s, j));
    }
}

proof fn lemma_digits_value_grows(t: Seq<char>, k: int)
    requires
        0 <= k <= t.len(),
        forall|i: int| 0 <= i < t.len() ==> is_digit(#[trigger] t[i]),
    ensures
        digits_value(t.take(k)) <= digits_value(t),
    decreases t.len() - k,
{
    if k < t.len() {
        lemma_digits_value_grows(t, k + 1);
        assert(t.take(k + 1).drop_last() =~= t.take(k));
    } else {
        assert(t.take(k) =~= t);
    }
}

proof fn lemma_overflowing_prefix(u: Seq<char>, k: int)
    requires
        0 <= k <= u.len(),
        forall|i: int| 0 <= i < k ==> is_digit(#[trigger] u[i]),
        digits_value(u.take(k)) > usize::MAX,
    ensures
        !((forall|i: int| 0 <= i < u.len() ==> is_digit(#[trigger] u[i])) && digits_value(u)
            <= usize::MAX),
{
    if forall|i: int| 0 <= i < u.len() ==> is_digit(#[trigger] u[i]) {
        lemma_digits_value_grows(u, k);
    }
}

/// `usize::from_str` on `s[from..to]`.
pub(crate) fn parse_usize(s: &Vec<char>, from: usize, to: usize) -> (r: Option<usize>)
    requires
        from <= to <= s@.len(),
    ensures
        match r {
            Some(v) => parse_usize_spec(s@.subrange(from as int, to as int)) == Some(v as nat),
            None => parse_usize_spec(s@.subrange(from as int, to as int)) is None,
        },
{
    let ghost t = s@.subrange(from as int, to as int);
    let mut i = from;
    if i < to && s[i] == '+' {
        i = i + 1;
    }
    let ghost u = s@.subrange(i as int, to as int);
    assert(u =~= strip_plus(t));
    if i == to {
        return None;
    }
    let start = i;
    let mut v: usize = 0;
    while i < to
        invariant
            start <= i <= to <= s@.len(),
            from <= start,
            t == s@.subrange(from as int, to as int),
            u == s@.subrange(start as int, to as int),
            u.len() > 0,
            u == strip_plus(t),
            forall|k: int| start <= k < i ==> is_digit(#[trigger] s@[k]),
            v as nat == digits_value(u.take(i - start)),
        decreases to - i,
    {
        let c = s[i];
        if !('0' <= c && c <= '9') {
            assert(!is_digit(u[i - start]));
            return None;
        }
        let d = (c as u32 - '0' as u32) as usize;
        assert(u.take(i - start + 1).drop_last() =~= u.take(i - start));
        assert(u.take(i - start + 1).last() == c);
        assert(u[i - start] == c);
        assert(digits_value(u.take(i - start + 1)) == v * 10 + d);
        match v.checked_mul(10) {
            None => {
                proof {
                    lemma_overflowing_prefix(u, i - start + 1);
                }
                return None;
            },
            Some(m) => match m.checked_add(d) {
                None => {
                    proof {
                        lemma_overflowing_prefix(u, i - start + 1);
                    }
                    return None;
                },
                Some(w) => {
                    v = w;
                },
            },
        }
        i = i + 1;
    }
    assert(u.take(to - start) =~= u);
    Some(v)
}

fn first_plus_token_index(s: &Vec<char>) -> (r: Option<usize>)
    ensures
        match r {
            Some(i) => first_plus_token(s@, i as int),
            None => !exists|i: int| first_plus_token(s@, i),
        },
{
    let mut i: usize = 0;
    while i < s.len()
        invariant
            i <= s@.len(),
            forall|k: int| 0 <= k < i && #[trigger] is_token_start(s@, k) ==> s@[k] != '+',
        decreases s.len() - i,
    {
        let starts = !char_is_whitespace(s[i]) && (i == 0 || char_is_whitespace(s[i - 1]));
        assert(starts == is_token_start(s@, i as int));
        if starts && s[i] == '+' {
            return Some(i);
        }
        i = i + 1;
    }
    proof {
        assert forall|j: int| !first_plus_token(s@, j) by {
            if first_plus_token(s@, j) {
                assert(is_token_start(s@, j));
            }
        }
    }
    None
}

fn token_end_exec(s: &Vec<char>, i: usize) -> (r: usize)
    requires
        i <= s@.len(),
    ensures
        r as int == token_end(s@, i as int),
        i <= r <= s@.len(),
        i < s@.len() && !is_whitespace(s@[i as int]) ==> r > i,
{
    let mut j = i;
    while j < s.len() && !char_is_whitespace(s[j])
        invariant
            i <= j <= s@.len(),
            token_end(s@, i as int) == token_end(s@, j as int),
        decreases s.len() - j,
    {
        j = j + 1;
    }
    j
}

/// The first `,` in `s[from..to]`, or `to`.
fn comma_exec(s: &Vec<char>, base: usize, from: usize, to: usize) -> (r: usize)
    requires
        base <= from <= to <= s@.len(),
    ensures
        r - base == comma_at(s@.subrange(base as int, to as int), from - base),
        from <= r <= to,
{
    let ghost body = s@.subrange(base as int, to as int);
    let mut j = from;
    while j < to && s[j] != ','
        invariant
            from <= j <= to <= s@.len(),
            base <= from,
            body == s@.subrange(base as int, to as int),
            comma_at(body, from - base) == comma_at(body, j - base),
        decreases to - j,
    {
        j = j + 1;
    }
    j
}

/// Whether a `@@ -a,b +c,d @@` hunk header's new-file span `[c, c+d)` meets
/// the inclusive one-indexed `[lo, hi]`. An unreadable header is kept.
pub fn hunk_overlaps_new_span(header: &str, lo: usize, hi: usize) -> (r: bool)
    ensures
        r == hunk_overlaps_spec(header@, lo as nat, hi as nat),
{
    let s = chars_of(header);
    hunk_overlaps_in(&s, lo, hi)
}

fn hunk_overlaps_in(s: &Vec<char>, lo: usize, hi: usize) -> (r: bool)
    ensures
        r == hunk_overlaps_spec(s@, lo as nat, hi as nat),
{
    let i = match first_plus_token_index(s) {
        None => {
            return true;
        },
        Some(i) => i,
    };
    proof {
        assert forall|j: int| first_plus_token(s@, j) implies j == i by {
            lemma_first_plus_unique(s@, i as int, j);
        }
    }
    let e = token_end_exec(s, i);
    let ghost body = s@.subrange(i + 1, e as int);
    let c1 = comma_exec(s, i + 1, i + 1, e);
    assert(body.take(c1 - (i + 1)) =~= s@.subrange(i + 1, c1 as int));
    let start = match parse_usize(s, i + 1, c1) {
        None => {
            return true;
        },
        Some(v) => v,
    };
    let count: usize = if c1 < e {
        let c2 = comma_exec(s, i + 1, c1 + 1, e);
        assert(body.subrange(c1 - (i + 1) + 1, c2 - (i + 1)) =~= s@.subrange(c1 + 1, c2 as int));
        match parse_usize(s, c1 + 1, c2) {
            Some(c) => c,
            None => 1,
        }
    } else {
        1
    };
    let tail: usize = if count >= 1 {
        count - 1
    } else {
        0
    };
    let last: u128 = start as u128 + tail as u128;
    start <= hi && (lo as u128) <= last
}

// ---------------------------------------------------------------------------
// Diff scoping.
/// Where the line starting at `i` ends: just past its newline, or at the
/// end of `s`.
pub open spec fn line_end(s: Seq<char>, i: int) -> int
    decreases s.len() - i,
{
    if i < 0 || i >= s.len() {
        s.len() as int
    } else if s[i] == '\n' {
        i + 1
    } else {
        line_end(s, i + 1)
    }
}

pub proof fn lemma_line_end(s: Seq<char>, i: int)
    requires
        0 <= i < s.len(),
    ensures
        i < line_end(s, i) <= s.len(),
    decreases s.len() - i,
{
    if s[i] != '\n' {
        if i + 1 < s.len() {
            lemma_line_end(s, i + 1);
        } else {
            assert(line_end(s, i + 1) == s.len());
        }
    }
}

pub open spec fn is_hunk_header(line: Seq<char>) -> bool {
    line.len() >= 2 && line[0] == '@' && line[1] == '@'
}

/// The lines of `s` from position `i` on that scoping keeps: every line
/// before the first hunk, and each hunk (header included) whose new-file
/// span meets `[lo, hi]`.
pub open spec fn scoped_from(s: Seq<char>, i: int, in_hunk: bool, keep: bool, lo: nat, hi: nat) -> Seq<
    char,
>
    decreases s.len() - i,
{
    if i < 0 || i >= s.len() {
        Seq::empty()
    } else {
        let e = line_end(s, i);
        proof {
            lemma_line_end(s, i);
        }
        let line = s.subrange(i, e);
        if is_hunk_header(line) {
            let k = hunk_overlaps_spec(line, lo, hi);
            (if k {
                line
            } else {
                Seq::empty()
            }) + scoped_from(s, e, true, k, lo, hi)
        } else if !in_hunk || keep {
            line + scoped_from(s, e, in_hunk, keep, lo, hi)
        } else {
            scoped_from(s, e, in_hunk, keep, lo, hi)
        }
    }
}

pub open spec fn scope_diff_spec(diff: Seq<char>, span: Option<(usize, usize)>) -> Seq<char> {
    match span {
        None => diff,
        Some((lo, hi)) => scoped_from(diff, 0, false, false, lo as nat, hi as nat),
    }
}

fn line_end_exec(s: &Vec<char>, i: usize) -> (r: usize)
    requires
        i < s@.len(),
    ensures
        r as int == line_end(s@, i as int),
{
    let mut j = i;
    while j < s.len() && s[j] != '\n'
        invariant
            i <= j <= s@.len(),
            line_end(s@, i as int) == line_end(s@, j as int),
        decreases s.len() - j,
    {
        j = j + 1;
    }
    if j < s.len() {
        j + 1
    } else {
        j
    }
}

fn copy_range(s: &Vec<char>, from: usize, to: usize) -> (r: Vec<char>)
    requires
        from <= to <= s@.len(),
    ensures
        r@ == s@.subrange(from as int, to as int),
{
    let mut r: Vec<char> = Vec::new();
    let mut k = from;
    while k < to
        invariant
            from <= k <= to <= s@.len(),
            r@ == s@.subrange(from as int, k as int),
        decreases to - k,
    {
        r.push(s[k]);
        assert(r@ =~= s@.subrange(from as int, k + 1));
        k = k + 1;
    }
    r
}

fn append_chars(out: &mut Vec<char>, src: &Vec<char>)
    ensures
        final(out)@ == old(out)@ + src@,
{
    let ghost start = out@;
    let mut k: usize = 0;
    while k < src.len()
        invariant
            k <= src@.len(),
            out@ == start + src@.take(k as int),
        decreases src.len() - k,
    {
        out.push(src[k]);
        assert(src@.take(k + 1) =~= src@.take(k as int).push(src@[k as int]));
        k = k + 1;
    }
    assert(src@.take(src@.len() as int) =~= src@);
}

/// Keep only the unified-diff hunks whose new-file line span meets `span`,
/// preserving everything before the first hunk. `None` keeps everything.
pub fn scope_diff_to_span(diff: &str, span: Option<(usize, usize)>) -> (r: String)
    ensures
        r@ == scope_diff_spec(diff@, span),
{
    let (lo, hi) = match span {
        None => {
            return diff.to_owned();
        },
        Some(p) => p,
    };
    let s = chars_of(diff);
    let mut out: Vec<char> = Vec::new();
    let mut in_hunk = false;
    let mut keep = false;
    let mut i: usize = 0;
    while i < s.len()
        invariant
            i <= s@.len(),
            out@ + scoped_from(s@, i as int, in_hunk, keep, lo as nat, hi as nat) == scoped_from(
                s@,
                0,
                false,
                false,
                lo as nat,
                hi as nat,
            ),
        decreases s.len() - i,
    {
        proof {
            lemma_line_end(s@, i as int);
        }
        let e = line_end_exec(&s, i);
        let line = copy_range(&s, i, e);
        let ghost before = out@;
        let ghost old_in = in_hunk;
        let ghost old_keep = keep;
        let header = line.len() >= 2 && line[0] == '@' && line[1] == '@';
        if header {
            in_hunk = true;
            keep = hunk_overlaps_in(&line, lo, hi);
            if keep {
                append_chars(&mut out, &line);
            }
        } else if !in_hunk || keep {
            append_chars(&mut out, &line);
        }
        proof {
            assert(line@ == s@.subrange(i as int, e as int));
            assert(out@ + scoped_from(s@, e as int, in_hunk, keep, lo as nat, hi as nat) =~= before
                + scoped_from(s@, i as int, old_in, old_keep, lo as nat, hi as nat));
        }
        i = e;
    }
    string_from_chars(out)
}

// ---------------------------------------------------------------------------
// The overlap of a well-formed hunk header.

/// The header `@@ -a,b +c,d @@` of a hunk.
pub open spec fn hunk_header(a: nat, b: nat, c: nat, d: nat) -> Seq<char> {
    "@@ -"@ + crate::text::decimal(a) + ","@ + crate::text::decimal(b) + " +"@ + crate::text::decimal(c) + ","@
        + crate::text::decimal(d) + " @@"@
}

/// The decimal rendering of a number is one or more digits that read back
/// as the number.
pub proof fn lemma_decimal_digits(n: nat)
    ensures
        crate::text::decimal(n).len() > 0,
        forall|k: int| 0 <= k < crate::text::decimal(n).len() ==> is_digit(#[trigger] crate::text::decimal(n)[k]),
        digits_value(crate::text::decimal(n)) == n,
    decreases n,
{
    let t = crate::text::decimal(n);
    let dgt: nat = n % 10;
    assert((crate::text::digit_char(dgt) as nat - '0' as nat) as nat == dgt);
    if n < 10 {
        assert(t.drop_last() =~= Seq::<char>::empty());
        assert(t.last() == crate::text::digit_char(n));
        assert(digits_value(t) == digits_value(t.drop_last()) * 10 + (t.last() as nat - '0' as nat) as nat);
        assert(digits_value(Seq::<char>::empty()) == 0);
    } else {
        lemma_decimal_digits(n / 10);
        let f = crate::text::decimal(n / 10);
        assert(t == f.push(crate::text::digit_char(n % 10)));
        assert(t.drop_last() =~= f);
        assert(n == (n / 10) * 10 + dgt);
        assert(t.last() == crate::text::digit_char(dgt));
        assert(digits_value(t) == digits_value(f) * 10 + (t.last() as nat - '0' as nat) as nat);
        assert forall|k: int| 0 <= k < t.len() implies is_digit(#[trigger] t[k]) by {
            if k < f.len() {
                assert(t[k] == f[k]);
            }
        }
    }
}

proof fn lemma_token_end_at(s: Seq<char>, i: int, j: int)
    requires
        0 <= i <= j < s.len(),
        forall|k: int| i <= k < j ==> !is_whitespace(#[trigger] s[k]),
        is_whitespace(s[j]),
    ensures
        token_end(s, i) == j,
    decreases j - i,
{
    if i < j {
        lemma_token_end_at(s, i + 1, j);
    }
}

proof fn lemma_comma_at_end(t: Seq<char>, j: int, m: int)
    requires
        0 <= j <= m <= t.len(),
        forall|k: int| j <= k < m ==> #[trigger] t[k] != ',',
        m == t.len() || t[m] == ',',
    ensures
        comma_at(t, j) == m,
    decreases m - j,
{
    if j < m {
        lemma_comma_at_end(t, j + 1, m);
    }
}

/// A hunk whose header is `@@ -a,b +c,d @@`, with `d >= 1`, touches the
/// inclusive new-file line span `[lo, hi]` exactly when its new-file lines
/// `[c, c + d)` meet it: `c <= hi` and `lo <= c + d - 1`.
pub proof fn hunk_overlap_is_the_new_span_meeting(a: nat, b: nat, c: nat, d: nat, lo: nat, hi: nat)
    requires
        1 <= d,
        c <= usize::MAX,
        d <= usize::MAX,
    ensures
        hunk_overlaps_spec(hunk_header(a, b, c, d), lo, hi) == (c <= hi && lo <= c + d - 1),
{
    reveal_strlit("@@ -");
    reveal_strlit(",");
    reveal_strlit(" +");
    reveal_strlit(" @@");
    lemma_decimal_digits(a);
    lemma_decimal_digits(b);
    lemma_decimal_digits(c);
    lemma_decimal_digits(d);
    let (da, db, dc, dd) = (
        crate::text::decimal(a),
        crate::text::decimal(b),
        crate::text::decimal(c),
        crate::text::decimal(d),
    );
    let pre = seq!['@', '@', ' ', '-'] + da + seq![','] + db + seq![' '];
    let body = dc + seq![','] + dd;
    let h = pre + seq!['+'] + body + seq![' ', '@', '@'];
    assert(hunk_header(a, b, c, d) =~= h);
    let i = pre.len() as int;
    // No token before the `+` starts with `+`.
    assert forall|k: int| 0 <= k < pre.len() implies #[trigger] pre[k] != '+' by {
        if k >= 4 && k < 4 + da.len() {
            assert(pre[k] == da[k - 4]);
        } else if k >= 5 + da.len() && k < 5 + da.len() + db.len() {
            assert(pre[k] == db[k - 5 - da.len()]);
        }
    }
    assert(h[i] == '+');
    assert(h[i - 1] == ' ');
    assert(first_plus_token(h, i)) by {
        assert forall|k: int| 0 <= k < i && #[trigger] is_token_start(h, k) implies h[k] != '+' by {
            assert(h[k] == pre[k]);
        }
    }
    assert forall|j: int| first_plus_token(h, j) implies j == i by {
        lemma_first_plus_unique(h, i, j);
    }
    let e = i + 1 + body.len();
    assert forall|k: int| i <= k < e implies !is_whitespace(#[trigger] h[k]) by {
        if k > i {
            assert(h[k] == body[k - i - 1]);
            if k - i - 1 < dc.len() {
                assert(body[k - i - 1] == dc[k - i - 1]);
            } else if k - i - 1 > dc.len() {
                assert(body[k - i - 1] == dd[k - i - 1 - dc.len() - 1]);
            }
        }
    }
    assert(h[e] == ' ');
    lemma_token_end_at(h, i, e);
    assert(h.subrange(i + 1, token_end(h, i)) =~= body);
    assert forall|k: int| 0 <= k < dc.len() implies #[trigger] body[k] != ',' by {
        assert(body[k] == dc[k]);
    }
    lemma_comma_at_end(body, 0, dc.len() as int);
    assert(body.take(dc.len() as int) =~= dc);
    assert(strip_plus(dc) == dc);
    assert(parse_usize_spec(dc) == Some(c));
    let c2: int = dc.len() as int + 1;
    assert forall|k: int| c2 <= k < body.len() implies #[trigger] body[k] != ',' by {
        assert(body[k] == dd[k - c2]);
    }
    lemma_comma_at_end(body, c2, body.len() as int);
    assert(body.subrange(c2, body.len() as int) =~= dd);
    assert(strip_plus(dd) == dd);
    assert(parse_usize_spec(dd) == Some(d));
}

} // verus!

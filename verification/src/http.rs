//! Reading the HTTP header values the routes depend on.

use vstd::prelude::*;
use vstd::string::StrSliceExecFns;

use crate::decimal::{parse_digits, std_parse_u16, std_parse_u64};

verus! {

/// Reads a header value as `str::parse::<u64>` does.
pub fn parse_u64(text: &str) -> (value: Option<u64>)
    ensures
        value == std_parse_u64(text@),
{
    let n = text.unicode_len();
    if n > 0 && text.get_char(0) == '+' {
        assert(text@.skip(1) =~= text@.subrange(1, n as int));
        parse_digits(text, 1, n)
    } else {
        assert(text@ =~= text@.subrange(0, n as int));
        parse_digits(text, 0, n)
    }
}

/// Reads a value as `str::parse::<u16>` does.
pub fn parse_u16(text: &str) -> (value: Option<u16>)
    ensures
        value == std_parse_u16(text@),
{
    match parse_u64(text) {
        Some(v) => if v <= 65535 {
            Some(v as u16)
        } else {
            None
        },
        None => None,
    }
}

/// `char::is_whitespace`: the Unicode `White_Space` characters.
pub open spec fn is_unicode_whitespace(c: char) -> bool {
    ||| ('\t' <= c && c <= '\r')
    ||| c == ' '
    ||| c == '\u{85}'
    ||| c == '\u{a0}'
    ||| c == '\u{1680}'
    ||| ('\u{2000}' <= c && c <= '\u{200a}')
    ||| c == '\u{2028}'
    ||| c == '\u{2029}'
    ||| c == '\u{202f}'
    ||| c == '\u{205f}'
    ||| c == '\u{3000}'
}

/// `char::is_whitespace`.
pub fn is_whitespace(c: char) -> (ws: bool)
    ensures
        ws == is_unicode_whitespace(c),
{
    ('\t' <= c && c <= '\r') || c == ' ' || c == '\u{85}' || c == '\u{a0}' || c == '\u{1680}' || (
    '\u{2000}' <= c && c <= '\u{200a}') || c == '\u{2028}' || c == '\u{2029}' || c == '\u{202f}'
        || c == '\u{205f}' || c == '\u{3000}'
}

/// Index of the first `;` at or after `from`, or the length.
pub open spec fn semicolon_index(s: Seq<char>, from: int) -> int
    decreases s.len() - from,
{
    if from >= s.len() {
        s.len() as int
    } else if s[from] == ';' {
        from
    } else {
        semicolon_index(s, from + 1)
    }
}

pub open spec fn trim_start_index(s: Seq<char>, i: int) -> int
    decreases s.len() - i,
{
    if 0 <= i < s.len() && is_unicode_whitespace(s[i]) {
        trim_start_index(s, i + 1)
    } else {
        i
    }
}

pub open spec fn trim_end_index(s: Seq<char>, low: int, j: int) -> int
    decreases j - low,
{
    if low < j && j <= s.len() && is_unicode_whitespace(s[j - 1]) {
        trim_end_index(s, low, j - 1)
    } else {
        j
    }
}

/// `str::trim`: without leading and trailing whitespace.
pub open spec fn trimmed(s: Seq<char>) -> Seq<char> {
    let a = trim_start_index(s, 0);
    s.subrange(a, trim_end_index(s, a, s.len() as int))
}

pub open spec fn ascii_lower_code(c: char) -> int {
    if 'A' <= c && c <= 'Z' {
        c as int + 32
    } else {
        c as int
    }
}

/// `str::eq_ignore_ascii_case`.
pub open spec fn eq_ignore_ascii_case(a: Seq<char>, b: Seq<char>) -> bool {
    a.len() == b.len() && forall|i: int| 0 <= i < a.len() ==> ascii_lower_code(#[trigger] a[i]) == ascii_lower_code(b[i])
}

/// Whether a `Content-Type` value names Protobuf: its media type, before any
/// parameters and without surrounding whitespace, is
/// `application/x-protobuf` in any letter case.
pub open spec fn spec_is_protobuf(content_type: Option<Seq<char>>) -> bool {
    match content_type {
        Some(s) => eq_ignore_ascii_case(
            trimmed(s.subrange(0, semicolon_index(s, 0))),
            "application/x-protobuf"@,
        ),
        None => false,
    }
}

proof fn lemma_semicolon_index(s: Seq<char>, from: int)
    requires
        0 <= from <= s.len(),
    ensures
        from <= semicolon_index(s, from) <= s.len(),
    decreases s.len() - from,
{
    if from < s.len() && s[from] != ';' {
        lemma_semicolon_index(s, from + 1);
    }
}

proof fn lemma_trim_start(s: Seq<char>, i: int)
    requires
        0 <= i <= s.len(),
    ensures
        i <= trim_start_index(s, i) <= s.len(),
    decreases s.len() - i,
{
    if i < s.len() && is_unicode_whitespace(s[i]) {
        lemma_trim_start(s, i + 1);
    }
}

proof fn lemma_trim_end(s: Seq<char>, low: int, j: int)
    requires
        0 <= low <= j <= s.len(),
    ensures
        low <= trim_end_index(s, low, j) <= j,
    decreases j - low,
{
    if low < j && is_unicode_whitespace(s[j - 1]) {
        lemma_trim_end(s, low, j - 1);
    }
}

fn lower_code(c: char) -> (code: u32)
    ensures
        code as int == ascii_lower_code(c),
{
    let v = c as u32;
    if 'A' <= c && c <= 'Z' {
        v + 32
    } else {
        v
    }
}

/// Whether a `Content-Type` value names Protobuf.
pub fn is_protobuf(content_type: Option<&str>) -> (protobuf: bool)
    ensures
        protobuf == spec_is_protobuf(
            match content_type {
                Some(s) => Some(s@),
                None => None,
            },
        ),
{
    let text = match content_type {
        Some(text) => text,
        None => {
            return false;
        },
    };
    let target = "application/x-protobuf";
    proof {
        reveal_strlit("application/x-protobuf");
    }
    let ghost s = text@;
    let n = text.unicode_len();
    let mut end: usize = 0;
    while end < n && text.get_char(end) != ';'
        invariant
            n == s.len(),
            text@ == s,
            end <= n,
            semicolon_index(s, 0) == semicolon_index(s, end as int),
        decreases n - end,
    {
        end = end + 1;
    }
    proof {
        lemma_semicolon_index(s, end as int);
    }
    assert(end as int == semicolon_index(s, 0));
    let ghost segment = s.subrange(0, end as int);
    let mut start: usize = 0;
    while start < end && is_whitespace(text.get_char(start))
        invariant
            start <= end <= n,
            n == s.len(),
            text@ == s,
            segment == s.subrange(0, end as int),
            trim_start_index(segment, 0) == trim_start_index(segment, start as int),
        decreases end - start,
    {
        start = start + 1;
    }
    assert(start as int == trim_start_index(segment, 0));
    let mut stop: usize = end;
    while stop > start && is_whitespace(text.get_char(stop - 1))
        invariant
            start <= stop <= end <= n,
            n == s.len(),
            text@ == s,
            segment == s.subrange(0, end as int),
            trim_end_index(segment, start as int, end as int) == trim_end_index(segment, start as int, stop as int),
        decreases stop - start,
    {
        stop = stop - 1;
    }
    assert(stop as int == trim_end_index(segment, start as int, end as int));
    let ghost t = segment.subrange(start as int, stop as int);
    assert(t =~= trimmed(segment));
    let target_length = target.unicode_len();
    if stop - start != target_length {
        return false;
    }
    let mut i: usize = 0;
    while i < target_length
        invariant
            target_length == target@.len(),
            target@ == "application/x-protobuf"@,
            start <= stop <= end <= n,
            n == s.len(),
            text@ == s,
            stop - start == target_length,
            t == segment.subrange(start as int, stop as int),
            segment == s.subrange(0, end as int),
            i <= target_length,
            forall|k: int| 0 <= k < i ==> ascii_lower_code(#[trigger] t[k]) == ascii_lower_code(target@[k]),
            t == trimmed(s.subrange(0, semicolon_index(s, 0))),
            content_type == Some(text),
        decreases target_length - i,
    {
        let a = text.get_char(start + i);
        let b = target.get_char(i);
        assert(a == t[i as int]);
        assert(b == target@[i as int]);
        if lower_code(a) != lower_code(b) {
            assert(ascii_lower_code(t[i as int]) != ascii_lower_code(target@[i as int]));
            assert(!eq_ignore_ascii_case(t, "application/x-protobuf"@));
            return false;
        }
        i = i + 1;
    }
    true
}

} // verus!

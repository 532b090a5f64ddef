//! Decimal numerals as the standard library reads them.

use vstd::prelude::*;
use vstd::string::{StrSliceExecFns, StringExecFns};

verus! {

pub open spec fn is_digit(c: char) -> bool {
    '0' <= c && c <= '9'
}

pub open spec fn digit_value(c: char) -> int {
    (c as int) - ('0' as int)
}

pub open spec fn all_digits(s: Seq<char>) -> bool {
    forall|i: int| 0 <= i < s.len() ==> is_digit(#[trigger] s[i])
}

/// The number that a string of decimal digits denotes.
pub open spec fn decimal_value(s: Seq<char>) -> nat
    decreases s.len(),
{
    if s.len() == 0 {
        0
    } else {
        (decimal_value(s.drop_last()) * 10 + digit_value(s.last())) as nat
    }
}

/// A numeral without sign and without superfluous leading zeros: the form in
/// which `to_string` prints an unsigned integer.
pub open spec fn is_canonical_numeral(s: Seq<char>) -> bool {
    &&& s.len() > 0
    &&& all_digits(s)
    &&& (s[0] == '0' ==> s.len() == 1)
}

/// What `str::parse::<u64>` accepts: an optional leading `+`, then at least one
/// digit, with a value that fits.
pub open spec fn std_parse_u64(s: Seq<char>) -> Option<u64> {
    let digits = if s.len() > 0 && s[0] == '+' { s.skip(1) } else { s };
    if digits.len() > 0 && all_digits(digits) && decimal_value(digits) <= u64::MAX {
        Some(decimal_value(digits) as u64)
    } else {
        None
    }
}

/// What `str::parse::<u16>` accepts.
pub open spec fn std_parse_u16(s: Seq<char>) -> Option<u16> {
    match std_parse_u64_unbounded(s) {
        Some(v) => if v <= u16::MAX { Some(v as u16) } else { None },
        None => None,
    }
}

/// The value of an optionally `+`-signed numeral, without a bound.
pub open spec fn std_parse_u64_unbounded(s: Seq<char>) -> Option<nat> {
    let digits = if s.len() > 0 && s[0] == '+' { s.skip(1) } else { s };
    if digits.len() > 0 && all_digits(digits) {
        Some(decimal_value(digits))
    } else {
        None
    }
}

/// A canonical numeral whose value fits in `u64`.
pub open spec fn canonical_u64(s: Seq<char>) -> Option<u64> {
    if is_canonical_numeral(s) && decimal_value(s) <= u64::MAX {
        Some(decimal_value(s) as u64)
    } else {
        None
    }
}

/// Appending a digit never makes a numeral smaller.
pub proof fn lemma_decimal_prefix_le(s: Seq<char>, i: int)
    requires
        0 <= i <= s.len(),
        all_digits(s),
    ensures
        decimal_value(s.subrange(0, i)) <= decimal_value(s),
    decreases s.len() - i,
{
    if i < s.len() {
        lemma_decimal_prefix_le(s, i + 1);
        let p = s.subrange(0, i + 1);
        assert(p.drop_last() =~= s.subrange(0, i));
        assert(is_digit(s[i]));
    } else {
        assert(s.subrange(0, i) =~= s);
    }
}

/// Reads the digits `s[from..to]` as a number, or `None` when one of them is
/// not a digit, the range is empty, or the value exceeds `u64::MAX`.
pub fn parse_digits(s: &str, from: usize, to: usize) -> (r: Option<u64>)
    requires
        from <= to <= s@.len(),
    ensures
        ({
            let d = s@.subrange(from as int, to as int);
            r == if d.len() > 0 && all_digits(d) && decimal_value(d) <= u64::MAX {
                Some(decimal_value(d) as u64)
            } else {
                None::<u64>
            }
        }),
{
    let ghost d = s@.subrange(from as int, to as int);
    if from == to {
        return None;
    }
    let mut acc: u64 = 0;
    let mut i: usize = from;
    while i < to
        invariant
            from <= i <= to <= s@.len(),
            d == s@.subrange(from as int, to as int),
            all_digits(d.subrange(0, i - from)),
            acc as nat == decimal_value(d.subrange(0, i - from)),
        decreases to - i,
    {
        let c = s.get_char(i);
        assert(c == d[i - from]);
        if !('0' <= c && c <= '9') {
            return None;
        }
        let digit = (c as u32 - '0' as u32) as u64;
        let ghost next = d.subrange(0, i - from + 1);
        assert(next.drop_last() =~= d.subrange(0, i - from));
        assert(all_digits(next));
        let big = acc.checked_mul(10);
        let sum = match big {
            Some(t) => t.checked_add(digit),
            None => None,
        };
        match sum {
            Some(n) => {
                acc = n;
            },
            None => {
                proof {
                    assert(decimal_value(next) > u64::MAX);
                    if all_digits(d) {
                        lemma_decimal_prefix_le(d, i - from + 1);
                    }
                }
                return None;
            },
        }
        i = i + 1;
    }
    assert(d.subrange(0, to - from) =~= d);
    Some(acc)
}

/// The character of a decimal digit.
pub open spec fn digit_char(d: nat) -> char {
    if d == 0 {
        '0'
    } else if d == 1 {
        '1'
    } else if d == 2 {
        '2'
    } else if d == 3 {
        '3'
    } else if d == 4 {
        '4'
    } else if d == 5 {
        '5'
    } else if d == 6 {
        '6'
    } else if d == 7 {
        '7'
    } else if d == 8 {
        '8'
    } else {
        '9'
    }
}

/// The one-character text of a decimal digit.
pub fn digit_text(d: u32) -> (text: &'static str)
    requires
        d < 10,
    ensures
        text@ == seq![digit_char(d as nat)],
{
    proof {
        reveal_strlit("0");
        reveal_strlit("1");
        reveal_strlit("2");
        reveal_strlit("3");
        reveal_strlit("4");
        reveal_strlit("5");
        reveal_strlit("6");
        reveal_strlit("7");
        reveal_strlit("8");
        reveal_strlit("9");
    }
    match d {
        0 => "0",
        1 => "1",
        2 => "2",
        3 => "3",
        4 => "4",
        5 => "5",
        6 => "6",
        7 => "7",
        8 => "8",
        _ => "9",
    }
}

/// The decimal numeral of a natural number, without leading zeros.
pub open spec fn nat_text(n: nat) -> Seq<char>
    decreases n,
{
    if n < 10 {
        seq![digit_char(n)]
    } else {
        nat_text(n / 10).push(digit_char(n % 10))
    }
}

/// The decimal numeral of an integer, with a leading `-` when negative.
pub open spec fn int_text(v: int) -> Seq<char> {
    if v < 0 {
        seq!['-'] + nat_text((-v) as nat)
    } else {
        nat_text(v as nat)
    }
}

fn append_nat_text(text: &mut String, n: u64)
    ensures
        final(text)@ == old(text)@ + nat_text(n as nat),
    decreases n,
{
    if n >= 10 {
        append_nat_text(text, n / 10);
    }
    text.append(digit_text((n % 10) as u32));
    assert(final(text)@ =~= old(text)@ + nat_text(n as nat)) by {
        if n >= 10 {
            assert(nat_text(n as nat) == nat_text((n / 10) as nat).push(digit_char((n % 10) as nat)));
        }
    }
}

/// The decimal text of a signed integer, as `Display` writes it.
pub fn int_to_text(value: i64) -> (text: String)
    ensures
        text@ == int_text(value as int),
{
    let mut text = String::new();
    if value < 0 {
        text.append("-");
        let magnitude: u64 = if value == i64::MIN {
            9_223_372_036_854_775_808u64
        } else {
            (-value) as u64
        };
        append_nat_text(&mut text, magnitude);
        proof {
            reveal_strlit("-");
        }
    } else {
        append_nat_text(&mut text, value as u64);
        assert(text@ =~= nat_text(value as nat));
    }
    text
}

/// The decimal text of an unsigned integer, as `Display` writes it.
pub fn u64_to_text(value: u64) -> (text: String)
    ensures
        text@ == nat_text(value as nat),
{
    let mut text = String::new();
    append_nat_text(&mut text, value);
    assert(text@ =~= nat_text(value as nat));
    text
}

} // verus!

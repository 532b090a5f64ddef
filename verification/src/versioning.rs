//! Release-version negotiation between the plugin and the host.

use vstd::prelude::*;
use vstd::string::StrSliceExecFns;
use crate::decimal::{canonical_u64, parse_digits};

verus! {

/// How a plugin version relates to the host version.
#[derive(Debug, Clone, Copy, PartialEq, Eq, Structural)]
pub enum VersionRelation {
    Compatible,
    UpdateHost,
    UpdatePlugin,
    Incompatible,
    Unknown,
}

/// Index of the first `.` at or after `from`, or the length when there is none.
pub open spec fn find_dot(s: Seq<char>, from: int) -> int
    decreases s.len() - from,
{
    if from >= s.len() {
        s.len() as int
    } else if s[from] == '.' {
        from
    } else {
        find_dot(s, from + 1)
    }
}

/// A strict `X.Y.Z` release version: exactly three dot-separated canonical
/// numerals that each fit in `u64`.
pub open spec fn spec_parse_version(v: Seq<char>) -> Option<(u64, u64, u64)> {
    let i = find_dot(v, 0);
    let j = find_dot(v, i + 1);
    let k = find_dot(v, j + 1);
    if i >= v.len() || j >= v.len() || k < v.len() {
        None
    } else {
        match (
            canonical_u64(v.subrange(0, i)),
            canonical_u64(v.subrange(i + 1, j)),
            canonical_u64(v.subrange(j + 1, v.len() as int)),
        ) {
            (Some(a), Some(b), Some(c)) => Some((a, b, c)),
            _ => None,
        }
    }
}

/// Major differences are incompatible, minor differences name the component to
/// update, patch differences are silent.
pub open spec fn relation_of(plugin: (u64, u64, u64), host: (u64, u64, u64)) -> VersionRelation {
    if plugin.0 != host.0 {
        VersionRelation::Incompatible
    } else if plugin.1 > host.1 {
        VersionRelation::UpdateHost
    } else if plugin.1 < host.1 {
        VersionRelation::UpdatePlugin
    } else {
        VersionRelation::Compatible
    }
}

pub open spec fn spec_compare(plugin: Seq<char>, host: Seq<char>) -> VersionRelation {
    match (spec_parse_version(plugin), spec_parse_version(host)) {
        (Some(p), Some(h)) => relation_of(p, h),
        _ => VersionRelation::Unknown,
    }
}

proof fn lemma_find_dot_bounds(s: Seq<char>, from: int)
    requires
        0 <= from,
    ensures
        from <= find_dot(s, from) || from >= s.len(),
        find_dot(s, from) <= s.len(),
        find_dot(s, from) < s.len() ==> s[find_dot(s, from)] == '.',
        forall|k: int| from <= k < find_dot(s, from) ==> s[k] != '.',
    decreases s.len() - from,
{
    if from < s.len() && s[from] != '.' {
        lemma_find_dot_bounds(s, from + 1);
    }
}

fn find_dot_exec(s: &str, from: usize) -> (r: usize)
    requires
        from <= s@.len(),
    ensures
        r as int == find_dot(s@, from as int),
{
    let n = s.unicode_len();
    let mut i = from;
    while i < n
        invariant
            n == s@.len(),
            from <= i <= n,
            find_dot(s@, from as int) == find_dot(s@, i as int),
        decreases n - i,
    {
        if s.get_char(i) == '.' {
            return i;
        }
        i = i + 1;
    }
    i
}

fn canonical_part(s: &str, from: usize, to: usize) -> (r: Option<u64>)
    requires
        from <= to <= s@.len(),
    ensures
        r == canonical_u64(s@.subrange(from as int, to as int)),
{
    let parsed = parse_digits(s, from, to);
    match parsed {
        Some(value) => {
            if s.get_char(from) == '0' && to - from != 1 {
                None
            } else {
                Some(value)
            }
        },
        None => None,
    }
}

fn parse(value: &str) -> (r: Option<(u64, u64, u64)>)
    ensures
        r == spec_parse_version(value@),
{
    let n = value.unicode_len();
    let i = find_dot_exec(value, 0);
    if i >= n {
        return None;
    }
    let j = find_dot_exec(value, i + 1);
    if j >= n {
        return None;
    }
    let k = find_dot_exec(value, j + 1);
    if k < n {
        return None;
    }
    proof {
        lemma_find_dot_bounds(value@, 0);
        lemma_find_dot_bounds(value@, i + 1);
    }
    let a = canonical_part(value, 0, i);
    let b = canonical_part(value, i + 1, j);
    let c = canonical_part(value, j + 1, n);
    match (a, b, c) {
        (Some(a), Some(b), Some(c)) => Some((a, b, c)),
        _ => None,
    }
}

/// Compares a plugin release version with the host release version.
pub fn compare(plugin: &str, host: &str) -> (r: VersionRelation)
    ensures
        r == spec_compare(plugin@, host@),
{
    let p = parse(plugin);
    let h = parse(host);
    match (p, h) {
        (Some(p), Some(h)) => {
            if p.0 != h.0 {
                VersionRelation::Incompatible
            } else if p.1 > h.1 {
                VersionRelation::UpdateHost
            } else if p.1 < h.1 {
                VersionRelation::UpdatePlugin
            } else {
                VersionRelation::Compatible
            }
        },
        _ => VersionRelation::Unknown,
    }
}

/// A well-formed version is compatible with itself, patch-only differences
/// are silent, and the two update directions mirror each other.
pub proof fn lemma_compare_laws(a: Seq<char>, b: Seq<char>)
    ensures
        spec_parse_version(a) is Some ==> spec_compare(a, a) == VersionRelation::Compatible,
        (spec_parse_version(a) is None || spec_parse_version(b) is None) <==> spec_compare(a, b)
            == VersionRelation::Unknown,
        spec_compare(a, b) == VersionRelation::UpdateHost <==> spec_compare(b, a)
            == VersionRelation::UpdatePlugin,
        spec_compare(a, b) == VersionRelation::Incompatible <==> spec_compare(b, a)
            == VersionRelation::Incompatible,
        spec_compare(a, b) == VersionRelation::Compatible <==> spec_compare(b, a)
            == VersionRelation::Compatible,
        (spec_parse_version(a) matches Some(p) && spec_parse_version(b) matches Some(h) && p.0
            == h.0 && p.1 == h.1) ==> spec_compare(a, b) == VersionRelation::Compatible,
{
}

proof fn lemma_find_dot_at(s: Seq<char>, from: int, i: int)
    requires
        0 <= from <= i <= s.len(),
        i < s.len() ==> s[i] == '.',
        forall|k: int| from <= k < i ==> s[k] != '.',
    ensures
        find_dot(s, from) == i,
    decreases i - from,
{
    if from < i {
        lemma_find_dot_at(s, from + 1, i);
    }
}

/// Three canonical numerals joined by dots are read back as their three
/// values, and nothing else is: a release version is its numbers.
pub proof fn lemma_dotted_numerals_parse(a: Seq<char>, b: Seq<char>, c: Seq<char>)
    requires
        canonical_u64(a) is Some,
        canonical_u64(b) is Some,
        canonical_u64(c) is Some,
    ensures
        spec_parse_version(a + seq!['.'] + b + seq!['.'] + c) == Some(
            (canonical_u64(a)->Some_0, canonical_u64(b)->Some_0, canonical_u64(c)->Some_0),
        ),
{
    let s = a + seq!['.'] + b + seq!['.'] + c;
    let i = a.len() as int;
    let j = i + 1 + b.len();
    assert forall|k: int| 0 <= k < i implies s[k] != '.' by {
        assert(s[k] == a[k]);
        assert(crate::decimal::is_digit(a[k]));
    }
    assert(s[i] == '.');
    lemma_find_dot_at(s, 0, i);
    assert forall|k: int| i + 1 <= k < j implies s[k] != '.' by {
        assert(s[k] == b[k - i - 1]);
        assert(crate::decimal::is_digit(b[k - i - 1]));
    }
    assert(s[j] == '.');
    lemma_find_dot_at(s, i + 1, j);
    assert forall|k: int| j + 1 <= k < s.len() implies s[k] != '.' by {
        assert(s[k] == c[k - j - 1]);
        assert(crate::decimal::is_digit(c[k - j - 1]));
    }
    lemma_find_dot_at(s, j + 1, s.len() as int);
    assert(s.subrange(0, i) =~= a);
    assert(s.subrange(i + 1, j) =~= b);
    assert(s.subrange(j + 1, s.len() as int) =~= c);
}

/// Release versions are compared by their numbers: a different major number
/// is incompatible whatever the rest; with the same major number, the side
/// with the larger minor number is ahead and the other must be updated, and
/// equal minor numbers are compatible whatever the patch numbers.
pub proof fn lemma_compare_by_numbers(plugin: Seq<char>, host: Seq<char>)
    requires
        spec_parse_version(plugin) is Some,
        spec_parse_version(host) is Some,
    ensures
        ({
            let (p_major, p_minor, _) = spec_parse_version(plugin)->Some_0;
            let (h_major, h_minor, _) = spec_parse_version(host)->Some_0;
            &&& (p_major != h_major) <==> spec_compare(plugin, host) == VersionRelation::Incompatible
            &&& (p_major == h_major && p_minor > h_minor) <==> spec_compare(plugin, host)
                == VersionRelation::UpdateHost
            &&& (p_major == h_major && p_minor < h_minor) <==> spec_compare(plugin, host)
                == VersionRelation::UpdatePlugin
            &&& (p_major == h_major && p_minor == h_minor) <==> spec_compare(plugin, host)
                == VersionRelation::Compatible
        }),
{
}

/// Comparing two release versions written as dotted numerals: versions
/// whose major numbers differ are incompatible; with the same major number,
/// a larger plugin minor asks for a host update, a smaller one for a plugin
/// update, and an equal minor is compatible whatever the patch numbers.
pub proof fn lemma_compare_release_versions(
    major: Seq<char>,
    minor: Seq<char>,
    patch: Seq<char>,
    host_major: Seq<char>,
    host_minor: Seq<char>,
    host_patch: Seq<char>,
)
    requires
        canonical_u64(major) is Some,
        canonical_u64(minor) is Some,
        canonical_u64(patch) is Some,
        canonical_u64(host_major) is Some,
        canonical_u64(host_minor) is Some,
        canonical_u64(host_patch) is Some,
    ensures
        ({
            let plugin = major + seq!['.'] + minor + seq!['.'] + patch;
            let host = host_major + seq!['.'] + host_minor + seq!['.'] + host_patch;
            let (pa, pb) = (canonical_u64(major)->Some_0, canonical_u64(minor)->Some_0);
            let (ha, hb) = (canonical_u64(host_major)->Some_0, canonical_u64(host_minor)->Some_0);
            &&& pa != ha ==> spec_compare(plugin, host) == VersionRelation::Incompatible
            &&& pa == ha && pb > hb ==> spec_compare(plugin, host) == VersionRelation::UpdateHost
            &&& pa == ha && pb < hb ==> spec_compare(plugin, host) == VersionRelation::UpdatePlugin
            &&& pa == ha && pb == hb ==> spec_compare(plugin, host) == VersionRelation::Compatible
        }),
{
    lemma_dotted_numerals_parse(major, minor, patch);
    lemma_dotted_numerals_parse(host_major, host_minor, host_patch);
    lemma_compare_by_numbers(
        major + seq!['.'] + minor + seq!['.'] + patch,
        host_major + seq!['.'] + host_minor + seq!['.'] + host_patch,
    );
}

/// The host's own release version reads as `0.1.0`.
pub proof fn lemma_host_version_parses()
    ensures
        spec_parse_version(crate::HOST_VERSION@) == Some((0u64, 1u64, 0u64)),
{
    reveal_strlit("0.1.0");
    let zero = seq!['0'];
    let one = seq!['1'];
    assert(crate::HOST_VERSION@ =~= zero + seq!['.'] + one + seq!['.'] + zero);
    reveal_with_fuel(crate::decimal::decimal_value, 2);
    assert(zero.drop_last() =~= Seq::<char>::empty());
    assert(one.drop_last() =~= Seq::<char>::empty());
    assert(canonical_u64(zero) == Some(0u64));
    assert(canonical_u64(one) == Some(1u64));
    lemma_dotted_numerals_parse(zero, one, zero);
}

} // verus!

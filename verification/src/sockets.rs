//! Who may open unprivileged ICMP ("ping") sockets: the kernel's `ping_group_range`.
use vstd::prelude::*;

use crate::text::{parse_int_range, rust_int_in, str_chars};

verus! {

/// `char::is_whitespace`: the Unicode `White_Space` characters.
pub open spec fn unicode_space(c: char) -> bool {
    ('\t' <= c && c <= '\r') || c == ' ' || c == '\u{85}' || c == '\u{A0}' || c == '\u{1680}' || (
    '\u{2000}' <= c && c <= '\u{200A}') || c == '\u{2028}' || c == '\u{2029}' || c == '\u{202F}'
        || c == '\u{205F}' || c == '\u{3000}'
}

fn is_unicode_space(c: char) -> (r: bool)
    ensures
        r == unicode_space(c),
{
    ('\t' <= c && c <= '\r') || c == ' ' || c == '\u{85}' || c == '\u{A0}' || c == '\u{1680}' || (
    '\u{2000}' <= c && c <= '\u{200A}') || c == '\u{2028}' || c == '\u{2029}' || c == '\u{202F}'
        || c == '\u{205F}' || c == '\u{3000}'
}

/// The first position from `i` on that is not white space.
pub open spec fn skip_space(s: Seq<char>, i: int) -> int
    decreases s.len() - i,
{
    if 0 <= i < s.len() && unicode_space(s[i]) {
        skip_space(s, i + 1)
    } else {
        i
    }
}

/// The end of the token starting at `i`.
pub open spec fn token_end(s: Seq<char>, i: int) -> int
    decreases s.len() - i,
{
    if 0 <= i < s.len() && !unicode_space(s[i]) {
        token_end(s, i + 1)
    } else {
        i
    }
}

/// The next white-space separated token from `i` on read as a `u32`, and where it ends.
pub open spec fn next_u32(s: Seq<char>, i: int) -> Option<(u32, int)> {
    let a = skip_space(s, i);
    let b = token_end(s, a);
    if a == b {
        None
    } else {
        match rust_int_in(s.subrange(a, b), false, 0, u32::MAX as int) {
            Some(v) => Some((v as u32, b)),
            None => None,
        }
    }
}

/// `"lo hi"` as the kernel writes `ping_group_range`: the first two white-space separated
/// tokens, each a `u32`; anything after them is ignored.
pub open spec fn ping_range_spec(s: Seq<char>) -> Option<(u32, u32)> {
    match next_u32(s, 0) {
        None => None,
        Some((lo, p)) => match next_u32(s, p) {
            None => None,
            Some((hi, _)) => Some((lo, hi)),
        },
    }
}

fn next_u32_exec(s: &[char], i: usize) -> (r: Option<(u32, usize)>)
    requires
        i <= s.len(),
    ensures
        r matches Some((v, e)) ==> next_u32(s@, i as int) == Some((v, e as int)) && e <= s.len(),
        r is None ==> next_u32(s@, i as int) is None,
{
    let mut a = i;
    while a < s.len() && is_unicode_space(s[a])
        invariant
            i <= a <= s.len(),
            skip_space(s@, i as int) == skip_space(s@, a as int),
        decreases s.len() - a,
    {
        a += 1;
    }
    let mut b = a;
    while b < s.len() && !is_unicode_space(s[b])
        invariant
            a <= b <= s.len(),
            token_end(s@, a as int) == token_end(s@, b as int),
        decreases s.len() - b,
    {
        b += 1;
    }
    if a == b {
        return None;
    }
    match parse_int_range(s, a, b, false, 0, 0xffff_ffff) {
        Some(v) => Some((v as u32, b)),
        None => None,
    }
}

/// Parses `ping_group_range`'s `"lo hi"` (tab- or space-separated).
pub fn parse_ping_group_range(s: &str) -> (r: Option<(u32, u32)>)
    ensures
        r == ping_range_spec(s@),
{
    let c = str_chars(s);
    match next_u32_exec(c.as_slice(), 0) {
        None => None,
        Some((lo, p)) => match next_u32_exec(c.as_slice(), p) {
            None => None,
            Some((hi, _)) => Some((lo, hi)),
        },
    }
}

/// Whether group `gid` may open ping sockets; a range with `lo > hi` (the kernel default,
/// "1 0") allows no group at all.
pub fn range_allows_gid(range: (u32, u32), gid: u32) -> (r: bool)
    ensures
        r == (range.0 <= range.1 && range.0 <= gid && gid <= range.1),
{
    range.0 <= range.1 && gid >= range.0 && gid <= range.1
}

} // verus!

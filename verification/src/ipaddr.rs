//! IP addresses and their text: dotted-quad IPv4, and IPv6 in colon-separated hexadecimal
//! groups. Text is read with the grammar of Rust's `Ipv4Addr`/`Ipv6Addr` parsers (leading
//! zeros refused in dotted quads, at most four hex digits per group, one `::`, an embedded
//! dotted quad in the last two groups) and written in their display form (lower-case groups,
//! the first longest run of two or more zero groups as `::`, IPv4-mapped addresses as
//! `::ffff:a.b.c.d`).
use vstd::prelude::*;

use crate::text::{
    c_space, dec_nat, digit_char, digit_value, digits_val, is_digit, is_word,
    lemma_dec_nat, push_dec, str_chars,
};

verus! {

broadcast use vstd::seq_lib::group_seq_properties;

/// An IPv4 address, `a.b.c.d`.
#[derive(Debug, Clone, Copy, PartialEq, Eq, Hash, Structural)]
pub struct Ipv4Addr {
    pub a: u8,
    pub b: u8,
    pub c: u8,
    pub d: u8,
}

/// An IPv6 address as its eight 16-bit groups, most significant first.
#[derive(Debug, Clone, Copy, PartialEq, Eq, Hash, Structural)]
pub struct Ipv6Addr {
    pub s0: u16,
    pub s1: u16,
    pub s2: u16,
    pub s3: u16,
    pub s4: u16,
    pub s5: u16,
    pub s6: u16,
    pub s7: u16,
}

/// An IPv4 or IPv6 address.
#[derive(Debug, Clone, Copy, PartialEq, Eq, Hash, Structural)]
pub enum IpAddr {
    V4(Ipv4Addr),
    V6(Ipv6Addr),
}

impl Ipv4Addr {
    /// `0.0.0.0`.
    pub fn unspecified() -> (r: Ipv4Addr)
        ensures
            r == (Ipv4Addr { a: 0, b: 0, c: 0, d: 0 }),
    {
        Ipv4Addr { a: 0, b: 0, c: 0, d: 0 }
    }

    pub fn new(a: u8, b: u8, c: u8, d: u8) -> (r: Ipv4Addr)
        ensures
            r == (Ipv4Addr { a, b, c, d }),
    {
        Ipv4Addr { a, b, c, d }
    }

    pub fn octets(&self) -> (r: [u8; 4])
        ensures
            r@ == seq![self.a, self.b, self.c, self.d],
    {
        let r = [self.a, self.b, self.c, self.d];
        assert(r@ =~= seq![self.a, self.b, self.c, self.d]);
        r
    }
}

/// The address with groups `g` (eight of them).
pub open spec fn v6_from_segs(g: Seq<u16>) -> Ipv6Addr {
    Ipv6Addr { s0: g[0], s1: g[1], s2: g[2], s3: g[3], s4: g[4], s5: g[5], s6: g[6], s7: g[7] }
}

impl Ipv6Addr {
    /// `::`.
    pub fn unspecified() -> (r: Ipv6Addr)
        ensures
            r.segs() == zeros(8),
    {
        let r = Ipv6Addr { s0: 0, s1: 0, s2: 0, s3: 0, s4: 0, s5: 0, s6: 0, s7: 0 };
        assert(r.segs() =~= zeros(8));
        r
    }

    /// The eight groups.
    pub open spec fn segs(self) -> Seq<u16> {
        seq![self.s0, self.s1, self.s2, self.s3, self.s4, self.s5, self.s6, self.s7]
    }

    pub fn new(s0: u16, s1: u16, s2: u16, s3: u16, s4: u16, s5: u16, s6: u16, s7: u16) -> (r:
        Ipv6Addr)
        ensures
            r.segs() == seq![s0, s1, s2, s3, s4, s5, s6, s7],
    {
        Ipv6Addr { s0, s1, s2, s3, s4, s5, s6, s7 }
    }

    pub fn segments(&self) -> (r: [u16; 8])
        ensures
            r@ == self.segs(),
    {
        let r = [self.s0, self.s1, self.s2, self.s3, self.s4, self.s5, self.s6, self.s7];
        assert(r@ =~= self.segs());
        r
    }

    /// The address whose sixteen bytes, in network order, are `o`.
    pub fn from_octets(o: [u8; 16]) -> (r: Ipv6Addr)
        ensures
            forall|i: int| 0 <= i < 8 ==> #[trigger] r.segs()[i] == o@[2 * i] * 256 + o@[2 * i + 1],
    {
        let r = Ipv6Addr {
            s0: o[0] as u16 * 256 + o[1] as u16,
            s1: o[2] as u16 * 256 + o[3] as u16,
            s2: o[4] as u16 * 256 + o[5] as u16,
            s3: o[6] as u16 * 256 + o[7] as u16,
            s4: o[8] as u16 * 256 + o[9] as u16,
            s5: o[10] as u16 * 256 + o[11] as u16,
            s6: o[12] as u16 * 256 + o[13] as u16,
            s7: o[14] as u16 * 256 + o[15] as u16,
        };
        r
    }

    /// The sixteen bytes, in network order.
    pub fn octets(&self) -> (r: [u8; 16])
        ensures
            forall|i: int| 0 <= i < 8 ==> r@[2 * i] == #[trigger] self.segs()[i] / 256 && r@[2 * i
                + 1] == self.segs()[i] % 256,
    {
        let r = [
            (self.s0 / 256) as u8,
            (self.s0 % 256) as u8,
            (self.s1 / 256) as u8,
            (self.s1 % 256) as u8,
            (self.s2 / 256) as u8,
            (self.s2 % 256) as u8,
            (self.s3 / 256) as u8,
            (self.s3 % 256) as u8,
            (self.s4 / 256) as u8,
            (self.s4 % 256) as u8,
            (self.s5 / 256) as u8,
            (self.s5 % 256) as u8,
            (self.s6 / 256) as u8,
            (self.s6 % 256) as u8,
            (self.s7 / 256) as u8,
            (self.s7 % 256) as u8,
        ];
        r
    }
}

impl IpAddr {
    pub fn is_ipv4(&self) -> (r: bool)
        ensures
            r == (*self is V4),
    {
        match self {
            IpAddr::V4(_) => true,
            IpAddr::V6(_) => false,
        }
    }

    pub fn is_ipv6(&self) -> (r: bool)
        ensures
            r == (*self is V6),
    {
        match self {
            IpAddr::V4(_) => false,
            IpAddr::V6(_) => true,
        }
    }

    /// Whether two addresses are the same address.
    pub fn same(&self, other: &IpAddr) -> (r: bool)
        ensures
            r == (*self == *other),
    {
        *self == *other
    }
}

// ---------------------------------------------------------------------------------------------
// Writing
// ---------------------------------------------------------------------------------------------
/// Dotted-quad text of an IPv4 address.
pub open spec fn v4_text(a: Ipv4Addr) -> Seq<char> {
    dec_nat(a.a as nat) + seq!['.'] + dec_nat(a.b as nat) + seq!['.'] + dec_nat(a.c as nat) + seq![
        '.',
    ] + dec_nat(a.d as nat)
}

/// The lower-case hexadecimal digit of `d` (0..=15).
pub open spec fn hex_char(d: int) -> char {
    if d < 10 {
        (48 + d) as char
    } else {
        (87 + d) as char
    }
}

/// The shortest lower-case hexadecimal numeral of `n`.
pub open spec fn hex_text(n: nat) -> Seq<char>
    decreases n,
{
    if n < 16 {
        seq![hex_char(n as int)]
    } else {
        hex_text(n / 16).push(hex_char((n % 16) as int))
    }
}

/// Hexadecimal groups joined by `:`.
pub open spec fn hex_join(g: Seq<u16>) -> Seq<char>
    decreases g.len(),
{
    if g.len() == 0 {
        seq![]
    } else if g.len() == 1 {
        hex_text(g[0] as nat)
    } else {
        hex_text(g[0] as nat) + seq![':'] + hex_join(g.drop_first())
    }
}

/// The first longest run of zero groups from `i` on, given the run in progress `(cs, cl)` and
/// the best so far `(bs, bl)`: `(start, length)`.
pub open spec fn zero_span(g: Seq<u16>, i: int, cs: int, cl: int, bs: int, bl: int) -> (int, int)
    decreases g.len() - i,
{
    if i >= g.len() {
        (bs, bl)
    } else if g[i] == 0 {
        let ncs = if cl == 0 {
            i
        } else {
            cs
        };
        let ncl = cl + 1;
        if ncl > bl {
            zero_span(g, i + 1, ncs, ncl, ncs, ncl)
        } else {
            zero_span(g, i + 1, ncs, ncl, bs, bl)
        }
    } else {
        zero_span(g, i + 1, 0, 0, bs, bl)
    }
}

/// Whether the groups are those of an IPv4-mapped address (`::ffff:a.b.c.d`).
pub open spec fn is_v4_mapped(g: Seq<u16>) -> bool {
    g[0] == 0 && g[1] == 0 && g[2] == 0 && g[3] == 0 && g[4] == 0 && g[5] == 0xffff
}

/// The embedded IPv4 address of the last two groups.
pub open spec fn v4_of_groups(hi: u16, lo: u16) -> Ipv4Addr {
    Ipv4Addr { a: (hi / 256) as u8, b: (hi % 256) as u8, c: (lo / 256) as u8, d: (lo % 256) as u8 }
}

/// Display text of an IPv6 address.
pub open spec fn v6_text(a: Ipv6Addr) -> Seq<char> {
    let g = a.segs();
    if is_v4_mapped(g) {
        "::ffff:"@ + v4_text(v4_of_groups(g[6], g[7]))
    } else {
        let (start, len) = zero_span(g, 0, 0, 0, 0, 0);
        if len > 1 {
            hex_join(g.take(start)) + seq![':', ':'] + hex_join(g.skip(start + len))
        } else {
            hex_join(g)
        }
    }
}

/// Display text of an address.
pub open spec fn ip_text(a: IpAddr) -> Seq<char> {
    match a {
        IpAddr::V4(v) => v4_text(v),
        IpAddr::V6(v) => v6_text(v),
    }
}

fn push_hex(out: &mut Vec<char>, n: u16)
    ensures
        final(out)@ == old(out)@ + hex_text(n as nat),
    decreases n,
{
    if n >= 16 {
        push_hex(out, n / 16);
    }
    let d: u8 = (n % 16) as u8;
    if d < 10 {
        out.push((48u8 + d) as char);
    } else {
        out.push((87u8 + d) as char);
    }
}

fn push_hex_join(out: &mut Vec<char>, g: &[u16], from: usize, to: usize)
    requires
        from <= to <= g.len(),
    ensures
        final(out)@ == old(out)@ + hex_join(g@.subrange(from as int, to as int)),
{
    let mut i: usize = from;
    while i < to
        invariant
            from <= i <= to <= g.len(),
            out@ == old(out)@ + hex_join(g@.subrange(from as int, i as int)),
        decreases to - i,
    {
        if i > from {
            out.push(':');
        }
        push_hex(out, g[i]);
        proof {
            lemma_hex_join_push(g@.subrange(from as int, i as int), g@[i as int]);
            assert(g@.subrange(from as int, i + 1) =~= g@.subrange(from as int, i as int).push(
                g@[i as int],
            ));
            if i == from {
                assert(g@.subrange(from as int, i as int) =~= Seq::<u16>::empty());
            }
        }
        i += 1;
    }
}

proof fn lemma_hex_join_push(g: Seq<u16>, x: u16)
    ensures
        g.len() == 0 ==> hex_join(g.push(x)) == hex_text(x as nat),
        g.len() > 0 ==> hex_join(g.push(x)) == hex_join(g) + seq![':'] + hex_text(x as nat),
    decreases g.len(),
{
    let p = g.push(x);
    if g.len() == 0 {
        assert(p =~= seq![x]);
    } else if g.len() == 1 {
        assert(p.drop_first() =~= seq![x]);
        assert(p[0] == g[0]);
    } else {
        lemma_hex_join_push(g.drop_first(), x);
        assert(p.drop_first() =~= g.drop_first().push(x));
        assert(p[0] == g[0]);
        assert(hex_join(p) == hex_text(g[0] as nat) + seq![':'] + hex_join(g.drop_first().push(x)));
        assert(hex_join(g) == hex_text(g[0] as nat) + seq![':'] + hex_join(g.drop_first()));
        assert(hex_join(p) =~= hex_join(g) + seq![':'] + hex_text(x as nat));
    }
}

/// Appends the dotted-quad text of `a`.
pub fn push_v4(out: &mut Vec<char>, a: &Ipv4Addr)
    ensures
        final(out)@ == old(out)@ + v4_text(*a),
{
    push_dec(out, a.a as u64);
    out.push('.');
    push_dec(out, a.b as u64);
    out.push('.');
    push_dec(out, a.c as u64);
    out.push('.');
    push_dec(out, a.d as u64);
    assert(out@ =~= old(out)@ + v4_text(*a));
}

/// The zero run `zero_span` settles on, found the same way.
fn find_zero_span(g: &[u16; 8]) -> (r: (usize, usize))
    ensures
        r.0 as int == zero_span(g@, 0, 0, 0, 0, 0).0,
        r.1 as int == zero_span(g@, 0, 0, 0, 0, 0).1,
        r.0 + r.1 <= 8,
{
    let mut cs: usize = 0;
    let mut cl: usize = 0;
    let mut bs: usize = 0;
    let mut bl: usize = 0;
    let mut i: usize = 0;
    while i < 8
        invariant
            i <= 8,
            g@.len() == 8,
            cl <= i,
            cl > 0 ==> cs + cl == i,
            bs + bl <= i,
            zero_span(g@, 0, 0, 0, 0, 0) == zero_span(g@, i as int, cs as int, cl as int, bs as int, bl as int),
        decreases 8 - i,
    {
        if g[i] == 0 {
            if cl == 0 {
                cs = i;
            }
            cl += 1;
            if cl > bl {
                bs = cs;
                bl = cl;
            }
        } else {
            cs = 0;
            cl = 0;
        }
        i += 1;
    }
    (bs, bl)
}

/// Appends the display text of `a`.
pub fn push_v6(out: &mut Vec<char>, a: &Ipv6Addr)
    ensures
        final(out)@ == old(out)@ + v6_text(*a),
{
    let g = a.segments();
    assert(g@.len() == 8);
    if a.s0 == 0 && a.s1 == 0 && a.s2 == 0 && a.s3 == 0 && a.s4 == 0 && a.s5 == 0xffff {
        let v = Ipv4Addr {
            a: (a.s6 / 256) as u8,
            b: (a.s6 % 256) as u8,
            c: (a.s7 / 256) as u8,
            d: (a.s7 % 256) as u8,
        };
        let ghost before = out@;
        out.push(':');
        out.push(':');
        out.push('f');
        out.push('f');
        out.push('f');
        out.push('f');
        out.push(':');
        push_v4(out, &v);
        proof {
            reveal_strlit("::ffff:");
            assert(out@ =~= before + "::ffff:"@ + v4_text(v));
        }
    } else {
        let (start, len) = find_zero_span(&g);
        if len > 1 {
            push_hex_join(out, &g, 0, start);
            out.push(':');
            out.push(':');
            push_hex_join(out, &g, start + len, 8);
            proof {
                assert(g@.subrange(0, start as int) =~= g@.take(start as int));
                assert(g@.subrange((start + len) as int, 8) =~= g@.skip((start + len) as int));
                assert(out@ =~= old(out)@ + v6_text(*a));
            }
        } else {
            push_hex_join(out, &g, 0, 8);
            assert(g@.subrange(0, 8) =~= g@);
        }
    }
}

/// Appends the display text of `a`.
pub fn push_ip(out: &mut Vec<char>, a: &IpAddr)
    ensures
        final(out)@ == old(out)@ + ip_text(*a),
{
    match a {
        IpAddr::V4(v) => push_v4(out, v),
        IpAddr::V6(v) => push_v6(out, v),
    }
}

// ---------------------------------------------------------------------------------------------
// Reading
// ---------------------------------------------------------------------------------------------
pub open spec fn is_hex(c: char) -> bool {
    ('0' <= c && c <= '9') || ('a' <= c && c <= 'f') || ('A' <= c && c <= 'F')
}

pub open spec fn hex_value(c: char) -> int {
    if '0' <= c && c <= '9' {
        c as int - 48
    } else if 'a' <= c && c <= 'f' {
        c as int - 87
    } else {
        c as int - 55
    }
}

/// The value of a string of hexadecimal digits.
pub open spec fn hex_val(s: Seq<char>) -> int
    decreases s.len(),
{
    if s.len() == 0 {
        0
    } else {
        hex_val(s.drop_last()) * 16 + hex_value(s.last())
    }
}

/// Number of consecutive hexadecimal digits at `pos`.
pub open spec fn hex_run(s: Seq<char>, pos: int) -> nat
    decreases s.len() - pos,
{
    if pos < 0 || pos >= s.len() || !is_hex(s[pos]) {
        0
    } else {
        1 + hex_run(s, pos + 1)
    }
}

/// Number of consecutive decimal digits at `pos`.
pub open spec fn dec_run(s: Seq<char>, pos: int) -> nat
    decreases s.len() - pos,
{
    if pos < 0 || pos >= s.len() || !is_digit(s[pos]) {
        0
    } else {
        1 + dec_run(s, pos + 1)
    }
}

/// A group of one to four hexadecimal digits at `pos`: its value and the position after it.
pub open spec fn read_h16(s: Seq<char>, pos: int) -> Option<(u16, int)> {
    let k = hex_run(s, pos);
    if k == 0 || k > 4 {
        None
    } else {
        Some((hex_val(s.subrange(pos, pos + k)) as u16, pos + k))
    }
}

/// A dotted-quad number at `pos`: one to three digits, no leading zero, at most 255.
pub open spec fn read_octet(s: Seq<char>, pos: int) -> Option<(u8, int)> {
    let k = dec_run(s, pos);
    if k == 0 || k > 3 || (k > 1 && s[pos] == '0') {
        None
    } else {
        let v = digits_val(s.subrange(pos, pos + k));
        if v > 255 {
            None
        } else {
            Some((v as u8, pos + k))
        }
    }
}

/// `.` at `pos`, then an octet.
pub open spec fn read_dot_octet(s: Seq<char>, pos: int) -> Option<(u8, int)> {
    if 0 <= pos < s.len() && s[pos] == '.' {
        read_octet(s, pos + 1)
    } else {
        None
    }
}

/// A dotted quad at `pos`: the address and the position after it.
pub open spec fn read_ipv4_at(s: Seq<char>, pos: int) -> Option<(Ipv4Addr, int)> {
    match read_octet(s, pos) {
        None => None,
        Some((a, p1)) => match read_dot_octet(s, p1) {
            None => None,
            Some((b, p2)) => match read_dot_octet(s, p2) {
                None => None,
                Some((c, p3)) => match read_dot_octet(s, p3) {
                    None => None,
                    Some((d, p4)) => Some((Ipv4Addr { a, b, c, d }, p4)),
                },
            },
        },
    }
}

/// The text, in full, as an IPv4 address.
pub open spec fn parse_v4_spec(s: Seq<char>) -> Option<Ipv4Addr> {
    match read_ipv4_at(s, 0) {
        Some((a, p)) => if p == s.len() {
            Some(a)
        } else {
            None
        },
        None => None,
    }
}

/// The position group `i` would start at: after a `:` unless it is the first.
pub open spec fn group_start(s: Seq<char>, pos: int, i: int) -> Option<int> {
    if i == 0 {
        Some(pos)
    } else if 0 <= pos < s.len() && s[pos] == ':' {
        Some(pos + 1)
    } else {
        None
    }
}

/// Colon-separated groups from `pos`, group `i` of at most `limit`, read so far `acc`: the
/// groups, whether the last two came from an embedded dotted quad, and the position after.
/// A dotted quad is tried first wherever at least two groups are left.
pub open spec fn read_groups(s: Seq<char>, pos: int, i: int, limit: int, acc: Seq<u16>) -> (
    Seq<u16>,
    bool,
    int,
)
    decreases limit - i,
{
    if i >= limit {
        (acc, false, pos)
    } else {
        match group_start(s, pos, i) {
            None => (acc, false, pos),
            Some(q) => {
                let v4 = if i < limit - 1 {
                    read_ipv4_at(s, q)
                } else {
                    None
                };
                match v4 {
                    Some((a, p2)) => (
                        acc.push((a.a as u16 * 256 + a.b as u16) as u16).push(
                            (a.c as u16 * 256 + a.d as u16) as u16,
                        ),
                        true,
                        p2,
                    ),
                    None => match read_h16(s, q) {
                        Some((g, p2)) => read_groups(s, p2, i + 1, limit, acc.push(g)),
                        None => (acc, false, pos),
                    },
                }
            },
        }
    }
}

/// `n` zero groups.
pub open spec fn zeros(n: int) -> Seq<u16> {
    Seq::new(n as nat, |i: int| 0u16)
}

/// The text, in full, as an IPv6 address.
pub open spec fn parse_v6_spec(s: Seq<char>) -> Option<Ipv6Addr> {
    let (head, head_v4, p) = read_groups(s, 0, 0, 8, seq![]);
    if head.len() == 8 {
        if p == s.len() {
            Some(v6_from_segs(head))
        } else {
            None
        }
    } else if head_v4 {
        None
    } else if p + 2 <= s.len() && s[p] == ':' && s[p + 1] == ':' {
        let limit = 8 - (head.len() + 1);
        let (tail, _, p2) = read_groups(s, p + 2, 0, limit, seq![]);
        if p2 == s.len() {
            Some(v6_from_segs(head + zeros(8 - head.len() - tail.len()) + tail))
        } else {
            None
        }
    } else {
        None
    }
}

/// The text, in full, as an address: a dotted quad, or else IPv6 text.
pub open spec fn parse_ip_spec(s: Seq<char>) -> Option<IpAddr> {
    match parse_v4_spec(s) {
        Some(a) => Some(IpAddr::V4(a)),
        None => match parse_v6_spec(s) {
            Some(a) => Some(IpAddr::V6(a)),
            None => None,
        },
    }
}

proof fn lemma_hex_val_step(s: Seq<char>, from: int, i: int)
    requires
        0 <= from <= i < s.len(),
    ensures
        hex_val(s.subrange(from, i + 1)) == hex_val(s.subrange(from, i)) * 16 + hex_value(s[i]),
{
    assert(s.subrange(from, i + 1).drop_last() =~= s.subrange(from, i));
    assert(s.subrange(from, i + 1).last() == s[i]);
}

proof fn lemma_digits_val_step(s: Seq<char>, from: int, i: int)
    requires
        0 <= from <= i < s.len(),
    ensures
        digits_val(s.subrange(from, i + 1)) == digits_val(s.subrange(from, i)) * 10 + digit_value(
            s[i],
        ),
{
    assert(s.subrange(from, i + 1).drop_last() =~= s.subrange(from, i));
    assert(s.subrange(from, i + 1).last() == s[i]);
}

/// `hex_run` is the first non-hex character, or the end.
proof fn lemma_hex_run_exact(s: Seq<char>, pos: int, k: int)
    requires
        0 <= pos,
        0 <= k,
        pos + k <= s.len(),
        forall|j: int| pos <= j < pos + k ==> is_hex(#[trigger] s[j]),
        pos + k == s.len() || !is_hex(s[pos + k]),
    ensures
        hex_run(s, pos) == k,
    decreases k,
{
    if k > 0 {
        lemma_hex_run_exact(s, pos + 1, k - 1);
        assert(is_hex(s[pos]));
    }
}

/// `dec_run` is the first non-digit, or the end.
proof fn lemma_dec_run_exact(s: Seq<char>, pos: int, k: int)
    requires
        0 <= pos,
        0 <= k,
        pos + k <= s.len(),
        forall|j: int| pos <= j < pos + k ==> is_digit(#[trigger] s[j]),
        pos + k == s.len() || !is_digit(s[pos + k]),
    ensures
        dec_run(s, pos) == k,
    decreases k,
{
    if k > 0 {
        lemma_dec_run_exact(s, pos + 1, k - 1);
        assert(is_digit(s[pos]));
    }
}

/// `read_h16`, executable.
fn read_h16_exec(s: &[char], pos: usize) -> (r: Option<(u16, usize)>)
    requires
        pos <= s.len(),
    ensures
        r matches Some((v, p)) ==> read_h16(s@, pos as int) == Some((v, p as int)) && p <= s.len(),
        r is None ==> read_h16(s@, pos as int) is None,
{
    let n = s.len();
    let mut i: usize = pos;
    let mut acc: u32 = 0;
    loop
        invariant
            pos <= i <= n == s.len(),
            i - pos <= 4,
            forall|j: int| pos <= j < i ==> is_hex(#[trigger] s@[j]),
            acc == hex_val(s@.subrange(pos as int, i as int)),
            (i - pos == 0 && acc == 0) || (i - pos == 1 && acc < 16) || (i - pos == 2 && acc < 256)
                || (i - pos == 3 && acc < 4096) || (i - pos == 4 && acc < 65536),
        ensures
            pos <= i <= n == s.len(),
            i - pos <= 4,
            forall|j: int| pos <= j < i ==> is_hex(#[trigger] s@[j]),
            acc == hex_val(s@.subrange(pos as int, i as int)),
            acc < 65536,
            i - pos < 4 ==> i == n || !is_hex(s@[i as int]),
        decreases 4 - (i - pos),
    {
        if i == n || i - pos == 4 {
            break ;
        }
        let c = s[i];
        let d: u32 = if '0' <= c && c <= '9' {
            c as u32 - 48
        } else if 'a' <= c && c <= 'f' {
            c as u32 - 87
        } else if 'A' <= c && c <= 'F' {
            c as u32 - 55
        } else {
            break ;
        };
        proof {
            lemma_hex_val_step(s@, pos as int, i as int);
        }
        acc = acc * 16 + d;
        i += 1;
    }
    let k = i - pos;
    if k == 0 {
        proof {
            lemma_hex_run_exact(s@, pos as int, 0);
        }
        return None;
    }
    if k == 4 && i < n {
        let c = s[i];
        if ('0' <= c && c <= '9') || ('a' <= c && c <= 'f') || ('A' <= c && c <= 'F') {
            proof {
                lemma_hex_run_ge(s@, pos as int, 5);
            }
            return None;
        }
    }
    proof {
        lemma_hex_run_exact(s@, pos as int, k as int);
    }
    Some((acc as u16, i))
}

/// At least `k` hex digits at `pos` make a run of at least `k`.
proof fn lemma_hex_run_ge(s: Seq<char>, pos: int, k: int)
    requires
        0 <= pos,
        0 <= k,
        pos + k <= s.len(),
        forall|j: int| pos <= j < pos + k ==> is_hex(#[trigger] s[j]),
    ensures
        hex_run(s, pos) >= k,
    decreases k,
{
    if k > 0 {
        lemma_hex_run_ge(s, pos + 1, k - 1);
        assert(is_hex(s[pos]));
    }
}

/// At least `k` digits at `pos` make a run of at least `k`.
proof fn lemma_dec_run_ge(s: Seq<char>, pos: int, k: int)
    requires
        0 <= pos,
        0 <= k,
        pos + k <= s.len(),
        forall|j: int| pos <= j < pos + k ==> is_digit(#[trigger] s[j]),
    ensures
        dec_run(s, pos) >= k,
    decreases k,
{
    if k > 0 {
        lemma_dec_run_ge(s, pos + 1, k - 1);
        assert(is_digit(s[pos]));
    }
}

/// `read_octet`, executable.
fn read_octet_exec(s: &[char], pos: usize) -> (r: Option<(u8, usize)>)
    requires
        pos <= s.len(),
    ensures
        r matches Some((v, p)) ==> read_octet(s@, pos as int) == Some((v, p as int)) && p <= s.len(),
        r is None ==> read_octet(s@, pos as int) is None,
{
    let n = s.len();
    let mut i: usize = pos;
    let mut acc: u32 = 0;
    loop
        invariant
            pos <= i <= n == s.len(),
            i - pos <= 3,
            forall|j: int| pos <= j < i ==> is_digit(#[trigger] s@[j]),
            acc == digits_val(s@.subrange(pos as int, i as int)),
            (i - pos == 0 && acc == 0) || (i - pos == 1 && acc < 10) || (i - pos == 2 && acc < 100)
                || (i - pos == 3 && acc < 1000),
        ensures
            pos <= i <= n == s.len(),
            i - pos <= 3,
            forall|j: int| pos <= j < i ==> is_digit(#[trigger] s@[j]),
            acc == digits_val(s@.subrange(pos as int, i as int)),
            acc < 1000,
            i - pos < 3 ==> i == n || !is_digit(s@[i as int]),
        decreases 3 - (i - pos),
    {
        if i == n || i - pos == 3 {
            break ;
        }
        if !('0' <= s[i] && s[i] <= '9') {
            break ;
        }
        proof {
            lemma_digits_val_step(s@, pos as int, i as int);
        }
        acc = acc * 10 + (s[i] as u32 - 48);
        i += 1;
    }
    let k = i - pos;
    if k == 0 {
        proof {
            lemma_dec_run_exact(s@, pos as int, 0);
        }
        return None;
    }
    if k == 3 && i < n && '0' <= s[i] && s[i] <= '9' {
        proof {
            lemma_dec_run_ge(s@, pos as int, 4);
        }
        return None;
    }
    proof {
        lemma_dec_run_exact(s@, pos as int, k as int);
    }
    if (k > 1 && s[pos] == '0') || acc > 255 {
        return None;
    }
    Some((acc as u8, i))
}

fn read_dot_octet_exec(s: &[char], pos: usize) -> (r: Option<(u8, usize)>)
    requires
        pos <= s.len(),
    ensures
        r matches Some((v, p)) ==> read_dot_octet(s@, pos as int) == Some((v, p as int)) && p <= s.len(),
        r is None ==> read_dot_octet(s@, pos as int) is None,
{
    if pos < s.len() && s[pos] == '.' {
        read_octet_exec(s, pos + 1)
    } else {
        None
    }
}

/// `read_ipv4_at`, executable.
fn read_ipv4_exec(s: &[char], pos: usize) -> (r: Option<(Ipv4Addr, usize)>)
    requires
        pos <= s.len(),
    ensures
        r matches Some((v, p)) ==> read_ipv4_at(s@, pos as int) == Some((v, p as int)) && p <= s.len(),
        r is None ==> read_ipv4_at(s@, pos as int) is None,
{
    let (a, p1) = match read_octet_exec(s, pos) {
        Some(x) => x,
        None => return None,
    };
    let (b, p2) = match read_dot_octet_exec(s, p1) {
        Some(x) => x,
        None => return None,
    };
    let (c, p3) = match read_dot_octet_exec(s, p2) {
        Some(x) => x,
        None => return None,
    };
    let (d, p4) = match read_dot_octet_exec(s, p3) {
        Some(x) => x,
        None => return None,
    };
    Some((Ipv4Addr { a, b, c, d }, p4))
}

/// `read_groups`, executable.
fn read_groups_exec(s: &[char], pos: usize, limit: usize) -> (r: (Vec<u16>, bool, usize))
    requires
        pos <= s.len(),
        limit <= 8,
    ensures
        read_groups(s@, pos as int, 0, limit as int, seq![]) == (r.0@, r.1, r.2 as int),
        r.2 <= s.len(),
        r.0@.len() <= limit,
{
    let mut acc: Vec<u16> = Vec::new();
    let mut p: usize = pos;
    let mut i: usize = 0;
    while i < limit
        invariant
            i <= limit <= 8,
            p <= s.len(),
            acc@.len() == i,
            read_groups(s@, pos as int, 0, limit as int, seq![]) == read_groups(
                s@,
                p as int,
                i as int,
                limit as int,
                acc@,
            ),
        decreases limit - i,
    {
        let q = if i == 0 {
            p
        } else if p < s.len() && s[p] == ':' {
            p + 1
        } else {
            return (acc, false, p);
        };
        if i + 1 < limit {
            if let Some((a, p2)) = read_ipv4_exec(s, q) {
                acc.push(a.a as u16 * 256 + a.b as u16);
                acc.push(a.c as u16 * 256 + a.d as u16);
                return (acc, true, p2);
            }
        }
        match read_h16_exec(s, q) {
            Some((g, p2)) => {
                acc.push(g);
                p = p2;
            },
            None => {
                return (acc, false, p);
            },
        }
        i += 1;
    }
    (acc, false, p)
}

/// Reads a whole string as a dotted quad.
pub fn parse_ipv4(text: &str) -> (r: Option<Ipv4Addr>)
    ensures
        r == parse_v4_spec(text@),
{
    let s = str_chars(text);
    match read_ipv4_exec(s.as_slice(), 0) {
        Some((a, p)) => if p == s.len() {
            Some(a)
        } else {
            None
        },
        None => None,
    }
}

/// Reads a whole string as IPv6 text.
#[verifier::rlimit(50)]
pub fn parse_ipv6(text: &str) -> (r: Option<Ipv6Addr>)
    ensures
        r == parse_v6_spec(text@),
{
    let s = str_chars(text);
    let n = s.len();
    let (head, head_v4, p) = read_groups_exec(s.as_slice(), 0, 8);
    if head.len() == 8 {
        if p == n {
            return Some(
                Ipv6Addr {
                    s0: head[0],
                    s1: head[1],
                    s2: head[2],
                    s3: head[3],
                    s4: head[4],
                    s5: head[5],
                    s6: head[6],
                    s7: head[7],
                },
            );
        }
        return None;
    }
    if head_v4 {
        return None;
    }
    if !(n - p >= 2 && s[p] == ':' && s[p + 1] == ':') {
        return None;
    }
    let limit = 8 - (head.len() + 1);
    let (tail, _, p2) = read_groups_exec(s.as_slice(), p + 2, limit);
    if p2 != n {
        return None;
    }
    let mut g: Vec<u16> = Vec::new();
    let mut i: usize = 0;
    let nz = 8 - head.len() - tail.len();
    let ghost full = head@ + zeros(nz as int) + tail@;
    while i < 8
        invariant
            i <= 8,
            head@.len() + tail@.len() <= 7,
            nz == 8 - head@.len() - tail@.len(),
            full == head@ + zeros(nz as int) + tail@,
            g@ == full.take(i as int),
        decreases 8 - i,
    {
        let x = if i < head.len() {
            head[i]
        } else if i < head.len() + nz {
            0
        } else {
            tail[i - head.len() - nz]
        };
        assert(full[i as int] == x);
        g.push(x);
        assert(g@ =~= full.take(i + 1));
        i += 1;
    }
    assert(g@ =~= full);
    Some(
        Ipv6Addr { s0: g[0], s1: g[1], s2: g[2], s3: g[3], s4: g[4], s5: g[5], s6: g[6], s7: g[7] },
    )
}

impl IpAddr {
    /// Reads a whole string as an address: a dotted quad, or else IPv6 text.
    pub fn parse_text(text: &str) -> (r: Option<IpAddr>)
        ensures
            r == parse_ip_spec(text@),
    {
        match parse_ipv4(text) {
            Some(a) => Some(IpAddr::V4(a)),
            None => match parse_ipv6(text) {
                Some(a) => Some(IpAddr::V6(a)),
                None => None,
            },
        }
    }
}

// ---------------------------------------------------------------------------------------------
// Reading back what was written
// ---------------------------------------------------------------------------------------------
/// The numeral of an octet: at most three digits, no leading zero.
proof fn lemma_dec_octet(n: nat)
    requires
        n <= 255,
    ensures
        1 <= dec_nat(n).len() <= 3,
        dec_nat(n).len() > 1 ==> dec_nat(n)[0] != '0',
{
    lemma_dec_nat(n);
    if n >= 10 {
        if n < 100 {
            assert(dec_nat(n / 10) == seq![digit_char((n / 10) as int)]);
            assert(dec_nat(n)[0] == digit_char((n / 10) as int));
        } else {
            assert(dec_nat(n / 100) == seq![digit_char((n / 100) as int)]);
            assert(n / 10 / 10 == n / 100);
            assert(dec_nat(n / 10) == dec_nat(n / 100).push(digit_char(((n / 10) % 10) as int)));
            assert(dec_nat(n)[0] == digit_char((n / 100) as int));
        }
    }
}

/// An octet's numeral, followed by a non-digit or the end, reads back as the octet.
proof fn lemma_read_octet_dec(s: Seq<char>, pos: int, n: u8)
    requires
        0 <= pos,
        pos + dec_nat(n as nat).len() <= s.len(),
        s.subrange(pos, pos + dec_nat(n as nat).len()) == dec_nat(n as nat),
        pos + dec_nat(n as nat).len() == s.len() || !is_digit(s[pos + dec_nat(n as nat).len()]),
    ensures
        read_octet(s, pos) == Some((n, pos + dec_nat(n as nat).len())),
{
    let d = dec_nat(n as nat);
    lemma_dec_nat(n as nat);
    lemma_dec_octet(n as nat);
    assert forall|j: int| pos <= j < pos + d.len() implies is_digit(#[trigger] s[j]) by {
        assert(s[j] == d[j - pos]);
    }
    lemma_dec_run_exact(s, pos, d.len() as int);
    assert(s[pos] == d[0]);
}

/// Dotted-quad text, followed by a non-digit or the end, reads back as the address.
pub proof fn lemma_read_v4_text(s: Seq<char>, pos: int, a: Ipv4Addr)
    requires
        0 <= pos,
        pos + v4_text(a).len() <= s.len(),
        s.subrange(pos, pos + v4_text(a).len()) == v4_text(a),
        pos + v4_text(a).len() == s.len() || !is_digit(s[pos + v4_text(a).len()]),
    ensures
        read_ipv4_at(s, pos) == Some((a, pos + v4_text(a).len())),
{
    let da = dec_nat(a.a as nat);
    let db = dec_nat(a.b as nat);
    let dc = dec_nat(a.c as nat);
    let dd = dec_nat(a.d as nat);
    let t = v4_text(a);
    let p1 = pos + da.len();
    let p2 = p1 + 1 + db.len();
    let p3 = p2 + 1 + dc.len();
    let p4 = p3 + 1 + dd.len();
    assert(t == da + seq!['.'] + db + seq!['.'] + dc + seq!['.'] + dd);
    assert(p4 == pos + t.len());
    assert(s.subrange(pos, p1) =~= da) by {
        assert forall|j: int| 0 <= j < da.len() implies s.subrange(pos, p1)[j] == da[j] by {
            assert(s[pos + j] == t[j]);
        }
    }
    assert(s[p1] == t[da.len() as int]);
    assert(s.subrange(p1 + 1, p2) =~= db) by {
        assert forall|j: int| 0 <= j < db.len() implies s.subrange(p1 + 1, p2)[j] == db[j] by {
            assert(s[p1 + 1 + j] == t[da.len() + 1 + j]);
        }
    }
    assert(s[p2] == t[p2 - pos]);
    assert(s.subrange(p2 + 1, p3) =~= dc) by {
        assert forall|j: int| 0 <= j < dc.len() implies s.subrange(p2 + 1, p3)[j] == dc[j] by {
            assert(s[p2 + 1 + j] == t[p2 - pos + 1 + j]);
        }
    }
    assert(s[p3] == t[p3 - pos]);
    assert(s.subrange(p3 + 1, p4) =~= dd) by {
        assert forall|j: int| 0 <= j < dd.len() implies s.subrange(p3 + 1, p4)[j] == dd[j] by {
            assert(s[p3 + 1 + j] == t[p3 - pos + 1 + j]);
        }
    }
    lemma_read_octet_dec(s, pos, a.a);
    lemma_read_octet_dec(s, p1 + 1, a.b);
    lemma_read_octet_dec(s, p2 + 1, a.c);
    lemma_read_octet_dec(s, p3 + 1, a.d);
}

/// Dotted-quad text reads back as the address.
pub proof fn lemma_v4_round_trip(a: Ipv4Addr)
    ensures
        parse_v4_spec(v4_text(a)) == Some(a),
{
    let t = v4_text(a);
    assert(t.subrange(0, t.len() as int) =~= t);
    lemma_read_v4_text(t, 0, a);
}


proof fn lemma_hex_char(d: int)
    requires
        0 <= d < 16,
    ensures
        is_hex(hex_char(d)),
        hex_value(hex_char(d)) == d,
{
}

/// A group's numeral: one to four hex digits worth the group.
proof fn lemma_hex_text(n: nat)
    ensures
        hex_text(n).len() >= 1,
        n < 0x10 ==> hex_text(n).len() == 1,
        n < 0x100 ==> hex_text(n).len() <= 2,
        n < 0x1000 ==> hex_text(n).len() <= 3,
        n < 0x10000 ==> hex_text(n).len() <= 4,
        forall|j: int| 0 <= j < hex_text(n).len() ==> is_hex(#[trigger] hex_text(n)[j]),
        hex_val(hex_text(n)) == n,
    decreases n,
{
    if n < 16 {
        lemma_hex_char(n as int);
        let e = hex_text(n);
        assert(e.drop_last() =~= Seq::<char>::empty());
        assert(hex_val(e) == hex_val(e.drop_last()) * 16 + hex_value(e.last()));
    } else {
        lemma_hex_char((n % 16) as int);
        lemma_hex_text(n / 16);
        let d = hex_text(n / 16);
        let e = d.push(hex_char((n % 16) as int));
        assert(e.drop_last() =~= d);
        assert(hex_val(e) == hex_val(d) * 16 + (n % 16));
        assert(n == (n / 16) * 16 + n % 16);
        assert(hex_text(n) == e);
        assert forall|j: int| 0 <= j < e.len() implies is_hex(#[trigger] e[j]) by {
            if j < d.len() {
                assert(e[j] == d[j]);
            }
        }
    }
}

/// Joined groups hold hex digits and colons only.
proof fn lemma_hex_join_chars(g: Seq<u16>)
    ensures
        forall|j: int|
            0 <= j < hex_join(g).len() ==> is_hex(#[trigger] hex_join(g)[j]) || hex_join(g)[j]
                == ':',
    decreases g.len(),
{
    if g.len() == 1 {
        lemma_hex_text(g[0] as nat);
    } else if g.len() > 1 {
        lemma_hex_text(g[0] as nat);
        lemma_hex_join_chars(g.drop_first());
        let h = hex_text(g[0] as nat);
        let t = hex_join(g);
        assert forall|j: int| 0 <= j < t.len() implies is_hex(#[trigger] t[j]) || t[j] == ':' by {
            if j < h.len() {
                assert(t[j] == h[j]);
            } else if j > h.len() {
                assert(t[j] == hex_join(g.drop_first())[j - h.len() - 1]);
            }
        }
    }
}

/// The hex run at `q`: hex digits up to its end, and the decimal run within it.
proof fn lemma_runs(s: Seq<char>, q: int)
    requires
        0 <= q,
    ensures
        dec_run(s, q) <= hex_run(s, q),
        q + hex_run(s, q) <= s.len() || hex_run(s, q) == 0,
        forall|j: int| q <= j < q + hex_run(s, q) ==> is_hex(#[trigger] s[j]),
    decreases s.len() - q,
{
    if q < s.len() && is_hex(s[q]) {
        lemma_runs(s, q + 1);
    }
}

/// No dotted quad starts where the hex run is not followed by a `.`.
proof fn lemma_no_v4(s: Seq<char>, q: int)
    requires
        0 <= q,
        hex_run(s, q) == 0 || q + hex_run(s, q) == s.len() || s[q + hex_run(s, q)] != '.',
    ensures
        read_ipv4_at(s, q) is None,
{
    lemma_runs(s, q);
    match read_octet(s, q) {
        None => {},
        Some((a, p1)) => {
            assert(p1 == q + dec_run(s, q));
            if p1 < q + hex_run(s, q) {
                assert(is_hex(s[p1]));
            }
        },
    }
}

/// Reading groups over joined hex groups `g`, each after a `:` but the first when `i` is 0:
/// all of them are read, and reading stops at the end `e` (at the end of the text or a `:`)
/// unless the limit was reached first.
#[verifier::rlimit(40)]
proof fn lemma_read_hex_groups(
    s: Seq<char>,
    pos: int,
    e: int,
    i: int,
    limit: int,
    acc: Seq<u16>,
    g: Seq<u16>,
)
    requires
        0 <= i <= limit,
        0 <= pos <= e <= s.len(),
        i + g.len() <= limit,
        g.len() == 0 ==> e == pos,
        g.len() > 0 && i == 0 ==> s.subrange(pos, e) == hex_join(g),
        g.len() > 0 && i > 0 ==> s.subrange(pos, e) == seq![':'] + hex_join(g),
        e == s.len() || s[e] == ':',
        i + g.len() < limit && e < s.len() ==> e + 1 == s.len() || !is_hex(s[e + 1]),
    ensures
        read_groups(s, pos, i, limit, acc) == (acc + g, false, e),
    decreases g.len(),
{
    if g.len() == 0 {
        assert(acc + g =~= acc);
        if i < limit {
            if i == 0 {
                lemma_no_v4(s, pos);
                assert(hex_run(s, pos) == 0);
            } else if pos < s.len() && s[pos] == ':' {
                lemma_no_v4(s, pos + 1);
                assert(hex_run(s, pos + 1) == 0);
            }
        }
    } else {
        let q = if i == 0 {
            pos
        } else {
            pos + 1
        };
        let h = hex_text(g[0] as nat);
        lemma_hex_text(g[0] as nat);
        let k = h.len() as int;
        let t = s.subrange(pos, e);
        let rest = g.drop_first();
        let p2 = q + k;
        let pre: Seq<char> = if i == 0 {
            seq![]
        } else {
            seq![':']
        };
        assert(t == pre + hex_join(g));
        assert(t.len() == e - pos);
        if g.len() == 1 {
            assert(hex_join(g) == h);
            assert(t =~= pre + h);
        } else {
            assert(hex_join(g) == h + seq![':'] + hex_join(rest));
            assert(t =~= pre + h + (seq![':'] + hex_join(rest)));
        }
        assert(q - pos == pre.len());
        assert(p2 <= e);
        if i > 0 {
            assert(s[pos] == t[0]);
        }
        assert forall|j: int| q <= j < q + k implies is_hex(#[trigger] s[j]) by {
            assert(s[j] == t[j - pos]);
            assert(t[j - pos] == h[j - q]);
        }
        if g.len() > 1 {
            assert(s[p2] == t[p2 - pos]);
            assert(s[p2] == ':');
        } else {
            assert(p2 == e);
        }
        lemma_hex_run_exact(s, q, k);
        lemma_no_v4(s, q);
        assert(s.subrange(q, q + k) =~= h) by {
            assert forall|j: int| 0 <= j < k implies s.subrange(q, q + k)[j] == h[j] by {
                assert(s[q + j] == t[q - pos + j]);
            }
        }
        assert(read_h16(s, q) == Some((g[0], p2)));
        if rest.len() > 0 {
            assert(s.subrange(p2, e) =~= seq![':'] + hex_join(rest)) by {
                assert forall|j: int| 0 <= j < e - p2 implies s.subrange(p2, e)[j] == (seq![':']
                    + hex_join(rest))[j] by {
                    assert(s[p2 + j] == t[p2 - pos + j]);
                }
            }
        }
        lemma_read_hex_groups(s, p2, e, i + 1, limit, acc.push(g[0]), rest);
        assert(acc.push(g[0]) + rest =~= acc + g);
    }
}


/// The run `zero_span` settles on lies within the groups and holds zeros only.
proof fn lemma_zero_span(g: Seq<u16>, i: int, cs: int, cl: int, bs: int, bl: int)
    requires
        0 <= i <= g.len(),
        0 <= cl,
        0 <= bl,
        cl > 0 ==> 0 <= cs && cs + cl == i,
        forall|j: int| cs <= j < cs + cl ==> #[trigger] g[j] == 0,
        bl > 0 ==> 0 <= bs && bs + bl <= i,
        forall|j: int| bs <= j < bs + bl ==> #[trigger] g[j] == 0,
    ensures
        ({
            let (s, l) = zero_span(g, i, cs, cl, bs, bl);
            &&& 0 <= l
            &&& l > 0 ==> 0 <= s && s + l <= g.len()
            &&& forall|j: int| s <= j < s + l ==> #[trigger] g[j] == 0
        }),
    decreases g.len() - i,
{
    if i < g.len() {
        if g[i] == 0 {
            let ncs = if cl == 0 {
                i
            } else {
                cs
            };
            let ncl = cl + 1;
            assert forall|j: int| ncs <= j < ncs + ncl implies #[trigger] g[j] == 0 by {
                if j < i {
                    assert(cs <= j < cs + cl);
                }
            }
            if ncl > bl {
                lemma_zero_span(g, i + 1, ncs, ncl, ncs, ncl);
            } else {
                lemma_zero_span(g, i + 1, ncs, ncl, bs, bl);
            }
        } else {
            lemma_zero_span(g, i + 1, 0, 0, bs, bl);
        }
    }
}

/// `ffff` is the largest group.
proof fn lemma_hex_ffff()
    ensures
        hex_val(seq!['f', 'f', 'f', 'f']) == 0xffff,
{
    let f0: Seq<char> = seq![];
    let f1: Seq<char> = seq!['f'];
    let f2: Seq<char> = seq!['f', 'f'];
    let f3: Seq<char> = seq!['f', 'f', 'f'];
    let f4: Seq<char> = seq!['f', 'f', 'f', 'f'];
    assert(hex_value('f') == 15);
    assert(f1.drop_last() =~= f0);
    assert(f1.last() == 'f');
    assert(hex_val(f1) == hex_val(f0) * 16 + 15);
    assert(f2.drop_last() =~= f1);
    assert(f2.last() == 'f');
    assert(hex_val(f2) == 255);
    assert(f3.drop_last() =~= f2);
    assert(f3.last() == 'f');
    assert(hex_val(f3) == 0xfff);
    assert(f4.drop_last() =~= f3);
    assert(f4.last() == 'f');
}

/// After the `::` of a mapped address: `ffff`, then the dotted quad as the last two groups.
proof fn lemma_mapped_tail(s: Seq<char>, v: Ipv4Addr)
    requires
        s == "::ffff:"@ + v4_text(v),
    ensures
        read_groups(s, 2, 0, 7, seq![]) == (
            seq![0xffffu16, (v.a as u16 * 256 + v.b as u16) as u16, (v.c as u16 * 256 + v.d as u16) as u16],
            true,
            s.len() as int,
        ),
{
    let vt = v4_text(v);
    reveal_strlit("::ffff:");
    assert(s[2] == 'f' && s[3] == 'f' && s[4] == 'f' && s[5] == 'f' && s[6] == ':');
    lemma_hex_run_exact(s, 2, 4);
    lemma_no_v4(s, 2);
    assert(s.subrange(2, 6) =~= seq!['f', 'f', 'f', 'f']);
    lemma_hex_ffff();
    assert(read_h16(s, 2) == Some((0xffffu16, 6int)));
    assert(s.subrange(7, 7 + vt.len() as int) =~= vt);
    lemma_read_v4_text(s, 7, v);
    let g = seq![0xffffu16, (v.a as u16 * 256 + v.b as u16) as u16, (v.c as u16 * 256 + v.d as u16) as u16];
    assert(group_start(s, 6, 1) == Some(7int));
    assert(read_groups(s, 6, 1, 7, seq![0xffffu16]) == (g, true, s.len() as int));
    assert(group_start(s, 2, 0) == Some(2int));
    assert(read_ipv4_at(s, 2) is None);
}

/// Text of an IPv4-mapped address reads back as the address.
#[verifier::rlimit(50)]
proof fn lemma_v6_mapped_round_trip(a: Ipv6Addr)
    requires
        is_v4_mapped(a.segs()),
    ensures
        parse_v6_spec(v6_text(a)) == Some(a),
{
    let g = a.segs();
    let s = v6_text(a);
    let v = v4_of_groups(g[6], g[7]);
    reveal_strlit("::ffff:");
    assert(s == "::ffff:"@ + v4_text(v));
    assert(s[0] == ':' && s[1] == ':' && s[2] == 'f');
    lemma_no_v4(s, 0);
    assert(hex_run(s, 0) == 0);
    assert(read_groups(s, 0, 0, 8, seq![]) == (Seq::<u16>::empty(), false, 0int));
    lemma_mapped_tail(s, v);
    let hi = (v.a as u16 * 256 + v.b as u16) as u16;
    let lo = (v.c as u16 * 256 + v.d as u16) as u16;
    assert(hi == g[6]);
    assert(lo == g[7]);
    assert(Seq::<u16>::empty() + zeros(5) + seq![0xffffu16, hi, lo] =~= g);
}

/// Text of an address that is not IPv4-mapped reads back as the address.
#[verifier::rlimit(50)]
proof fn lemma_v6_hex_round_trip(a: Ipv6Addr)
    requires
        !is_v4_mapped(a.segs()),
    ensures
        parse_v6_spec(v6_text(a)) == Some(a),
{
    let g = a.segs();
    let s = v6_text(a);
        let (start, len) = zero_span(g, 0, 0, 0, 0, 0);
        lemma_zero_span(g, 0, 0, 0, 0, 0);
        if len > 1 {
            let head = g.take(start);
            let tail = g.skip(start + len);
            let hj = hex_join(head);
            let tj = hex_join(tail);
            assert(s == hj + seq![':', ':'] + tj);
            let e = hj.len() as int;
            lemma_hex_join_chars(head);
            lemma_hex_join_chars(tail);
            assert(s[e] == ':' && s[e + 1] == ':');
            if head.len() > 0 {
                assert(s.subrange(0, e) =~= hj);
            }
            lemma_read_hex_groups(s, 0, e, 0, 8, seq![], head);
            assert(Seq::<u16>::empty() + head =~= head);
            let limit = 8 - (head.len() + 1);
            if tail.len() > 0 {
                assert(s.subrange(e + 2, s.len() as int) =~= tj);
            }
            lemma_read_hex_groups(s, e + 2, s.len() as int, 0, limit, seq![], tail);
            assert(Seq::<u16>::empty() + tail =~= tail);
            assert(head + zeros(8 - head.len() - tail.len()) + tail =~= g);
        } else {
            lemma_hex_join_chars(g);
            assert(s == hex_join(g));
            assert(s.subrange(0, s.len() as int) =~= s);
            lemma_read_hex_groups(s, 0, s.len() as int, 0, 8, seq![], g);
            assert(Seq::<u16>::empty() + g =~= g);
        }
}

/// IPv6 display text reads back as the address.
pub proof fn lemma_v6_round_trip(a: Ipv6Addr)
    ensures
        parse_v6_spec(v6_text(a)) == Some(a),
{
    if is_v4_mapped(a.segs()) {
        lemma_v6_mapped_round_trip(a);
    } else {
        lemma_v6_hex_round_trip(a);
    }
}


/// Text of an address reads back as the address.
pub proof fn lemma_ip_round_trip(a: IpAddr)
    ensures
        a is V4 ==> parse_v4_spec(ip_text(a)) == Some(a->V4_0),
        a is V6 ==> parse_v6_spec(ip_text(a)) == Some(a->V6_0),
        parse_ip_spec(ip_text(a)) == Some(a),
{
    match a {
        IpAddr::V4(v) => lemma_v4_round_trip(v),
        IpAddr::V6(v) => {
            lemma_v6_round_trip(v);
            lemma_ip_text_chars(a);
            // IPv6 text always holds a `:`, which no dotted quad does
            let s = ip_text(a);
            if parse_v4_spec(s) is Some {
                let w = parse_v4_spec(s)->Some_0;
                lemma_v4_round_trip(w);
                lemma_v4_text_chars(w);
                lemma_v6_text_has_colon(v);
            }
        },
    }
}

/// Dotted-quad text holds digits and dots only.
proof fn lemma_v4_text_chars(a: Ipv4Addr)
    ensures
        v4_text(a).len() > 0,
        forall|j: int| 0 <= j < v4_text(a).len() ==> is_digit(#[trigger] v4_text(a)[j]) || v4_text(a)[j] == '.',
{
    let da = dec_nat(a.a as nat);
    let db = dec_nat(a.b as nat);
    let dc = dec_nat(a.c as nat);
    let dd = dec_nat(a.d as nat);
    lemma_dec_nat(a.a as nat);
    lemma_dec_nat(a.b as nat);
    lemma_dec_nat(a.c as nat);
    lemma_dec_nat(a.d as nat);
    let t = v4_text(a);
    assert forall|j: int| 0 <= j < t.len() implies is_digit(#[trigger] t[j]) || t[j] == '.' by {
        let p1 = da.len() as int;
        let p2 = p1 + 1 + db.len();
        let p3 = p2 + 1 + dc.len();
        if j < p1 {
            assert(t[j] == da[j]);
        } else if j == p1 || j == p2 || j == p3 {
        } else if j < p2 {
            assert(t[j] == db[j - p1 - 1]);
        } else if j < p3 {
            assert(t[j] == dc[j - p2 - 1]);
        } else {
            assert(t[j] == dd[j - p3 - 1]);
        }
    }
}

/// IPv6 display text holds a `:`.
proof fn lemma_v6_text_has_colon(a: Ipv6Addr)
    ensures
        exists|j: int| 0 <= j < v6_text(a).len() && v6_text(a)[j] == ':',
{
    let g = a.segs();
    let s = v6_text(a);
    if is_v4_mapped(g) {
        reveal_strlit("::ffff:");
        assert(s[0] == ':');
    } else {
        let (start, len) = zero_span(g, 0, 0, 0, 0, 0);
        if len > 1 {
            let hj = hex_join(g.take(start));
            assert(s[hj.len() as int] == ':');
        } else {
            lemma_hex_text(g[0] as nat);
            let h = hex_text(g[0] as nat);
            assert(hex_join(g) == h + seq![':'] + hex_join(g.drop_first()));
            assert(s[h.len() as int] == ':');
        }
    }
}

/// Address text is a word: non-empty, digits, hex digits, dots and colons only.
pub proof fn lemma_ip_text_chars(a: IpAddr)
    ensures
        is_word(ip_text(a)),
{
    match a {
        IpAddr::V4(v) => {
            lemma_v4_text_chars(v);
            let t = v4_text(v);
            assert forall|j: int| 0 <= j < t.len() implies !c_space(#[trigger] t[j]) by {
                assert(is_digit(t[j]) || t[j] == '.');
            }
        },
        IpAddr::V6(v) => {
            let g = v.segs();
            let s = v6_text(v);
            lemma_v6_text_has_colon(v);
            if is_v4_mapped(g) {
                let w = v4_of_groups(g[6], g[7]);
                reveal_strlit("::ffff:");
                lemma_v4_text_chars(w);
                let vt = v4_text(w);
                assert forall|j: int| 0 <= j < s.len() implies !c_space(#[trigger] s[j]) by {
                    if j >= 7 {
                        assert(s[j] == vt[j - 7]);
                        assert(is_digit(vt[j - 7]) || vt[j - 7] == '.');
                    }
                }
            } else {
                let (start, len) = zero_span(g, 0, 0, 0, 0, 0);
                if len > 1 {
                    let hj = hex_join(g.take(start));
                    let tj = hex_join(g.skip(start + len));
                    lemma_hex_join_chars(g.take(start));
                    lemma_hex_join_chars(g.skip(start + len));
                    assert forall|j: int| 0 <= j < s.len() implies !c_space(#[trigger] s[j]) by {
                        if j < hj.len() {
                            assert(s[j] == hj[j]);
                            assert(is_hex(hj[j]) || hj[j] == ':');
                        } else if j >= hj.len() + 2 {
                            assert(s[j] == tj[j - hj.len() - 2]);
                            assert(is_hex(tj[j - hj.len() - 2]) || tj[j - hj.len() - 2] == ':');
                        }
                    }
                } else {
                    lemma_hex_join_chars(g);
                    assert forall|j: int| 0 <= j < s.len() implies !c_space(#[trigger] s[j]) by {
                        assert(is_hex(s[j]) || s[j] == ':');
                    }
                }
            }
        },
    }
}

} // verus!

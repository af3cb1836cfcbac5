//! IP addresses: the values, their dotted text and its parsing.

use vstd::prelude::*;
use crate::scan::{all_digits, digits_value, split_char, split_on, vecs_view, is_digit};
use crate::text::{digits, push_decimal};
use crate::ipv6::{ipv6_spec, parse_ipv6};

verus! {

/// An IPv4 or IPv6 address.
#[derive(Debug, Clone, Copy, PartialEq, Eq, Structural)]
pub enum IpAddress {
    /// The four octets of an IPv4 address.
    V4(u8, u8, u8, u8),
    /// The eight 16-bit segments of an IPv6 address.
    V6(u16, u16, u16, u16, u16, u16, u16, u16),
}

/// A decimal IPv4 octet as the standard parser accepts it: one to three digits, no
/// leading zero unless the octet is `0`, and a value of at most 255.
pub open spec fn octet_ok(t: Seq<char>) -> bool {
    &&& 1 <= t.len() <= 3
    &&& all_digits(t)
    &&& (t.len() == 1 || t[0] != '0')
    &&& digits_value(t) <= 255
}

/// The IPv4 address written by `s` in dotted-decimal form, if it is one.
pub open spec fn ipv4_spec(s: Seq<char>) -> Option<IpAddress> {
    let p = split_char(s, '.');
    if p.len() == 4 && octet_ok(p[0]) && octet_ok(p[1]) && octet_ok(p[2]) && octet_ok(p[3]) {
        Some(IpAddress::V4(digits_value(p[0]) as u8, digits_value(p[1]) as u8, digits_value(p[2]) as u8, digits_value(p[3]) as u8))
    } else {
        None
    }
}

/// The address written by `s`, if it is one: dotted-decimal IPv4 first, then IPv6.
pub open spec fn ip_spec(s: Seq<char>) -> Option<IpAddress> {
    match ipv4_spec(s) {
        Some(a) => Some(a),
        None => match ipv6_spec(s) {
            Some(g) => Some(IpAddress::V6(g[0], g[1], g[2], g[3], g[4], g[5], g[6], g[7])),
            None => None,
        },
    }
}

fn parse_octet(t: &[char]) -> (r: Option<u8>)
    ensures
        r is Some <==> octet_ok(t@),
        r matches Some(v) ==> v == digits_value(t@),
{
    let n = t.len();
    if n < 1 || n > 3 {
        return None;
    }
    if n > 1 && t[0] == '0' {
        return None;
    }
    let mut v: u32 = 0;
    let mut i: usize = 0;
    while i < n
        invariant
            1 <= n <= 3,
            n == t@.len(),
            i <= n,
            forall|m: int| 0 <= m < i ==> is_digit(#[trigger] t@[m]),
            v == digits_value(t@.subrange(0, i as int)),
            i == 0 ==> v == 0,
            i == 1 ==> v < 10,
            i == 2 ==> v < 100,
            i == 3 ==> v < 1000,
        decreases n - i,
    {
        let c = t[i];
        if !('0' <= c && c <= '9') {
            proof {
                assert(!is_digit(t@[i as int]));
            }
            return None;
        }
        let dv = (c as u32 - '0' as u32);
        proof {
            let pre = t@.subrange(0, i as int);
            let post = t@.subrange(0, i as int + 1);
            assert(post.drop_last() =~= pre);
            assert(post.last() == c);
            assert(i < 3);
        }
        v = v * 10 + dv;
        i = i + 1;
    }
    proof {
        assert(t@.subrange(0, n as int) =~= t@);
    }
    if v > 255 { None } else { Some(v as u8) }
}

/// Parses a dotted-decimal IPv4 address (see `ipv4_spec`).
pub fn parse_ipv4(s: &[char]) -> (r: Option<IpAddress>)
    ensures
        r == ipv4_spec(s@),
{
    let parts = split_on(s, '.');
    proof {
        assert(vecs_view(parts@).len() == parts@.len());
    }
    if parts.len() != 4 {
        return None;
    }
    proof {
        assert(vecs_view(parts@)[0] == parts@[0]@);
        assert(vecs_view(parts@)[1] == parts@[1]@);
        assert(vecs_view(parts@)[2] == parts@[2]@);
        assert(vecs_view(parts@)[3] == parts@[3]@);
    }
    let a = parse_octet(parts[0].as_slice());
    let b = parse_octet(parts[1].as_slice());
    let c = parse_octet(parts[2].as_slice());
    let d = parse_octet(parts[3].as_slice());
    match (a, b, c, d) {
        (Some(a), Some(b), Some(c), Some(d)) => Some(IpAddress::V4(a, b, c, d)),
        _ => None,
    }
}

/// Parses an IP address written as text.
pub fn parse_ip(s: &[char]) -> (r: Option<IpAddress>)
    ensures
        r == ip_spec(s@),
{
    match parse_ipv4(s) {
        Some(a) => Some(a),
        None => match parse_ipv6(s) {
            Some(g) => Some(IpAddress::V6(g[0], g[1], g[2], g[3], g[4], g[5], g[6], g[7])),
            None => None,
        },
    }
}

/// The dotted-decimal text of an IPv4 address.
pub open spec fn ipv4_text(a: u8, b: u8, c: u8, d: u8) -> Seq<char> {
    digits(a as nat) + seq!['.'] + digits(b as nat) + seq!['.'] + digits(c as nat) + seq!['.'] + digits(d as nat)
}

} // verus!

verus! {

proof fn lemma_digit_char(d: nat)
    requires
        d < 10,
    ensures
        is_digit(crate::text::digit_char(d)),
        crate::scan::digit_value(crate::text::digit_char(d)) == d,
        crate::text::digit_char(d) != '.',
        d > 0 ==> crate::text::digit_char(d) != '0',
{
}

/// The decimal rendering of `n` is a run of digits worth `n`, without a leading zero.
pub proof fn lemma_digits_roundtrip(n: nat)
    ensures
        all_digits(digits(n)),
        digits_value(digits(n)) == n,
        digits(n).len() >= 1,
        n >= 10 ==> digits(n).len() > 1,
        digits(n).len() > 1 ==> digits(n)[0] != '0',
        n < 10 ==> digits(n).len() == 1,
        n < 100 ==> digits(n).len() <= 2,
        n < 1000 ==> digits(n).len() <= 3,
    decreases n,
{
    if n < 10 {
        lemma_digit_char(n);
        assert(digits(n) == seq![crate::text::digit_char(n)]);
        assert(digits(n).drop_last() =~= Seq::<char>::empty());
        assert(digits_value(digits(n)) == digits_value(Seq::<char>::empty()) * 10 + crate::scan::digit_value(crate::text::digit_char(n)));
        assert(digits_value(digits(n)) == n);
    } else {
        lemma_digits_roundtrip(n / 10);
        lemma_digit_char(n % 10);
        let s = digits(n);
        assert(s.drop_last() =~= digits(n / 10));
        assert(s.last() == crate::text::digit_char(n % 10));
        assert(digits_value(s) == digits_value(digits(n / 10)) * 10 + crate::scan::digit_value(s.last()));
        assert(n == (n / 10) * 10 + n % 10);
        assert(digits_value(s) == n);
        assert(s[0] == digits(n / 10)[0]);
        if n / 10 < 10 {
            assert(digits(n / 10) == seq![crate::text::digit_char(n / 10)]);
            assert(digits(n / 10)[0] != '0') by {
                lemma_digit_char(n / 10);
            }
        }
    }
}

proof fn lemma_no_dot(t: Seq<char>)
    requires
        all_digits(t),
    ensures
        crate::scan::char_pos(t, '.') == t.len(),
        crate::scan::char_pos(t + seq!['.'], '.') == t.len(),
{
    assert forall|m: int| 0 <= m < t.len() implies #[trigger] t[m] != '.' by {
        assert(is_digit(t[m]));
    }
    crate::scan::lemma_char_pos_exact(t, '.', t.len() as int);
    let u = t + seq!['.'];
    assert forall|m: int| 0 <= m < t.len() implies #[trigger] u[m] != '.' by {
        assert(u[m] == t[m]);
        assert(is_digit(t[m]));
    }
    crate::scan::lemma_char_pos_exact(u, '.', t.len() as int);
}

proof fn lemma_split_piece(t: Seq<char>, rest: Seq<char>)
    requires
        all_digits(t),
    ensures
        split_char(t + seq!['.'] + rest, '.') == seq![t] + split_char(rest, '.'),
{
    let s = t + seq!['.'] + rest;
    assert forall|m: int| 0 <= m < t.len() implies #[trigger] s[m] != '.' by {
        assert(s[m] == t[m]);
        assert(is_digit(t[m]));
    }
    crate::scan::lemma_char_pos_exact(s, '.', t.len() as int);
    assert(s.take(t.len() as int) =~= t);
    assert(s.skip(t.len() as int + 1) =~= rest);
}

/// Reading back the dotted-decimal text of an IPv4 address gives the address.
pub proof fn lemma_ipv4_text_roundtrip(a: u8, b: u8, c: u8, d: u8)
    ensures
        ipv4_spec(ipv4_text(a, b, c, d)) == Some(IpAddress::V4(a, b, c, d)),
{
    lemma_digits_roundtrip(a as nat);
    lemma_digits_roundtrip(b as nat);
    lemma_digits_roundtrip(c as nat);
    lemma_digits_roundtrip(d as nat);
    let da = digits(a as nat);
    let db = digits(b as nat);
    let dc = digits(c as nat);
    let dd = digits(d as nat);
    lemma_no_dot(dd);
    assert(split_char(dd, '.') == seq![dd]);
    lemma_split_piece(dc, dd);
    lemma_split_piece(db, dc + seq!['.'] + dd);
    lemma_split_piece(da, db + seq!['.'] + dc + seq!['.'] + dd);
    assert(ipv4_text(a, b, c, d) =~= da + seq!['.'] + (db + seq!['.'] + dc + seq!['.'] + dd));
    assert(db + seq!['.'] + dc + seq!['.'] + dd =~= db + seq!['.'] + (dc + seq!['.'] + dd));
    let p = split_char(ipv4_text(a, b, c, d), '.');
    assert(p =~= seq![da, db, dc, dd]);
}

fn push_ipv4_text(out: &mut String, a: u8, b: u8, c: u8, d: u8)
    ensures
        final(out)@ == old(out)@ + ipv4_text(a, b, c, d),
{
    push_decimal(out, a as u128);
    out.append(".");
    push_decimal(out, b as u128);
    out.append(".");
    push_decimal(out, c as u128);
    out.append(".");
    push_decimal(out, d as u128);
    proof {
        reveal_strlit(".");
        assert(out@ =~= old(out)@ + ipv4_text(a, b, c, d));
    }
}

/// Appends the text of `ip` to `out`.
pub fn push_ip_text(out: &mut String, ip: &IpAddress)
    ensures
        final(out)@ == old(out)@ + ip_text(*ip),
{
    match ip {
        IpAddress::V4(a, b, c, d) => {
            push_ipv4_text(out, *a, *b, *c, *d);
        },
        IpAddress::V6(s0, s1, s2, s3, s4, s5, s6, s7) => {
            push_ipv6_text(out, [*s0, *s1, *s2, *s3, *s4, *s5, *s6, *s7]);
        },
    }
}

/// The text of an IP address, as its `Display` writes it.
pub fn ip_to_string(ip: &IpAddress) -> (s: String)
    ensures
        s@ == ip_text(*ip),
{
    let mut s = String::new();
    push_ip_text(&mut s, ip);
    proof {
        assert(s@ =~= ip_text(*ip));
    }
    s
}

} // verus!

verus! {

/// The lowercase hexadecimal digit for `d` (which is meant to be below sixteen).
pub open spec fn hex_char(d: nat) -> char {
    if d < 10 { crate::text::digit_char(d) }
    else if d == 10 { 'a' }
    else if d == 11 { 'b' }
    else if d == 12 { 'c' }
    else if d == 13 { 'd' }
    else if d == 14 { 'e' }
    else { 'f' }
}

/// Lowercase hexadecimal rendering of `n` without leading zeros, as `{:x}` writes it.
pub open spec fn hex_digits(n: nat) -> Seq<char>
    decreases n,
{
    if n < 16 { seq![hex_char(n)] } else { hex_digits(n / 16).push(hex_char(n % 16)) }
}

/// Segments in hexadecimal, separated by colons.
pub open spec fn hex_join(s: Seq<u16>) -> Seq<char>
    decreases s.len(),
{
    if s.len() == 0 {
        Seq::empty()
    } else if s.len() == 1 {
        hex_digits(s[0] as nat)
    } else {
        hex_join(s.drop_last()) + seq![':'] + hex_digits(s.last() as nat)
    }
}

/// One step of the search for the longest run of zero segments: `cur` is the run being
/// read and `best` the longest run seen so far, each as (start, length); the first of
/// several longest runs wins.
pub open spec fn zero_run_scan(seg: Seq<u16>, i: int, cur: (int, int), best: (int, int)) -> (int, int)
    decreases seg.len() - i,
{
    if i < 0 || i >= seg.len() {
        best
    } else if seg[i] == 0 {
        let c = if cur.1 == 0 { (i, 1int) } else { (cur.0, cur.1 + 1) };
        let b = if c.1 > best.1 { c } else { best };
        zero_run_scan(seg, i + 1, c, b)
    } else {
        zero_run_scan(seg, i + 1, (0, 0), best)
    }
}

/// The first longest run of zero segments, as (start, length).
pub open spec fn longest_zero_run(seg: Seq<u16>) -> (int, int) {
    zero_run_scan(seg, 0, (0, 0), (0, 0))
}

/// The text of an IPv6 address, as its `Display` writes it: an IPv4-mapped address as
/// `::ffff:` and the dotted IPv4 form; otherwise the segments in hexadecimal with the
/// first longest run of at least two zero segments written as `::`.
pub open spec fn ipv6_text(seg: Seq<u16>) -> Seq<char> {
    if seg[0] == 0 && seg[1] == 0 && seg[2] == 0 && seg[3] == 0 && seg[4] == 0 && seg[5] == 0xffff {
        "::ffff:"@ + ipv4_text((seg[6] / 256) as u8, (seg[6] % 256) as u8, (seg[7] / 256) as u8, (seg[7] % 256) as u8)
    } else {
        let z = longest_zero_run(seg);
        if z.1 > 1 {
            hex_join(seg.take(z.0)) + "::"@ + hex_join(seg.skip(z.0 + z.1))
        } else {
            hex_join(seg)
        }
    }
}

/// The text of an IP address, as its `Display` writes it.
pub open spec fn ip_text(ip: IpAddress) -> Seq<char> {
    match ip {
        IpAddress::V4(a, b, c, d) => ipv4_text(a, b, c, d),
        IpAddress::V6(s0, s1, s2, s3, s4, s5, s6, s7) => ipv6_text(seq![s0, s1, s2, s3, s4, s5, s6, s7]),
    }
}

fn hex_str(d: u16) -> (s: &'static str)
    requires
        d < 16,
    ensures
        s@ == seq![hex_char(d as nat)],
{
    proof {
        reveal_strlit("0"); reveal_strlit("1"); reveal_strlit("2"); reveal_strlit("3");
        reveal_strlit("4"); reveal_strlit("5"); reveal_strlit("6"); reveal_strlit("7");
        reveal_strlit("8"); reveal_strlit("9"); reveal_strlit("a"); reveal_strlit("b");
        reveal_strlit("c"); reveal_strlit("d"); reveal_strlit("e"); reveal_strlit("f");
    }
    if d == 0 { "0" } else if d == 1 { "1" } else if d == 2 { "2" } else if d == 3 { "3" }
    else if d == 4 { "4" } else if d == 5 { "5" } else if d == 6 { "6" } else if d == 7 { "7" }
    else if d == 8 { "8" } else if d == 9 { "9" } else if d == 10 { "a" } else if d == 11 { "b" }
    else if d == 12 { "c" } else if d == 13 { "d" } else if d == 14 { "e" } else { "f" }
}

fn push_hex(out: &mut String, n: u16)
    ensures
        final(out)@ == old(out)@ + hex_digits(n as nat),
    decreases n,
{
    if n < 16 {
        out.append(hex_str(n));
    } else {
        push_hex(out, n / 16);
        out.append(hex_str(n % 16));
        proof {
            assert(old(out)@ + hex_digits(n as nat) =~= old(out)@ + hex_digits((n / 16) as nat) + seq![hex_char((n % 16) as nat)]);
        }
    }
}

fn push_hex_join(out: &mut String, seg: &[u16; 8], lo: usize, hi: usize)
    requires
        lo <= hi <= 8,
    ensures
        final(out)@ == old(out)@ + hex_join(seg@.subrange(lo as int, hi as int)),
{
    let ghost start = out@;
    let mut i = lo;
    proof {
        assert(seg@.subrange(lo as int, lo as int) =~= Seq::<u16>::empty());
    }
    while i < hi
        invariant
            lo <= i <= hi <= 8,
            seg@.len() == 8,
            out@ == start + hex_join(seg@.subrange(lo as int, i as int)),
        decreases hi - i,
    {
        if i > lo {
            out.append(":");
        }
        push_hex(out, seg[i]);
        proof {
            reveal_strlit(":");
            let pre = seg@.subrange(lo as int, i as int);
            let post = seg@.subrange(lo as int, i as int + 1);
            assert(post.drop_last() =~= pre);
            assert(post.last() == seg@[i as int]);
            if i == lo {
                assert(post.len() == 1);
                assert(out@ =~= start + hex_join(post));
            } else {
                assert(out@ =~= start + hex_join(post));
            }
        }
        i = i + 1;
    }
}

fn longest_zero_run_exec(seg: &[u16; 8]) -> (r: (usize, usize))
    ensures
        r.0 as int == longest_zero_run(seg@).0,
        r.1 as int == longest_zero_run(seg@).1,
        r.0 + r.1 <= 8,
{
    let mut cur: (usize, usize) = (0, 0);
    let mut best: (usize, usize) = (0, 0);
    let mut i: usize = 0;
    while i < 8
        invariant
            i <= 8,
            seg@.len() == 8,
            cur.0 + cur.1 <= i,
            best.0 + best.1 <= i,
            longest_zero_run(seg@) == zero_run_scan(seg@, i as int, (cur.0 as int, cur.1 as int), (best.0 as int, best.1 as int)),
        decreases 8 - i,
    {
        if seg[i] == 0 {
            if cur.1 == 0 {
                cur = (i, 1);
            } else {
                cur = (cur.0, cur.1 + 1);
            }
            if cur.1 > best.1 {
                best = cur;
            }
        } else {
            cur = (0, 0);
        }
        i = i + 1;
    }
    best
}

fn push_ipv6_text(out: &mut String, seg: [u16; 8])
    ensures
        final(out)@ == old(out)@ + ipv6_text(seg@),
{
    if seg[0] == 0 && seg[1] == 0 && seg[2] == 0 && seg[3] == 0 && seg[4] == 0 && seg[5] == 0xffff {
        out.append("::ffff:");
        push_ipv4_text(out, (seg[6] / 256) as u8, (seg[6] % 256) as u8, (seg[7] / 256) as u8, (seg[7] % 256) as u8);
        proof {
            assert(out@ =~= old(out)@ + ipv6_text(seg@));
        }
    } else {
        let z = longest_zero_run_exec(&seg);
        if z.1 > 1 {
            push_hex_join(out, &seg, 0, z.0);
            out.append("::");
            push_hex_join(out, &seg, z.0 + z.1, 8);
            proof {
                assert(seg@.subrange(0, z.0 as int) =~= seg@.take(z.0 as int));
                assert(seg@.subrange(z.0 + z.1, 8) =~= seg@.skip(z.0 + z.1));
                assert(out@ =~= old(out)@ + ipv6_text(seg@));
            }
        } else {
            push_hex_join(out, &seg, 0, 8);
            proof {
                assert(seg@.subrange(0, 8) =~= seg@);
                assert(out@ =~= old(out)@ + ipv6_text(seg@));
            }
        }
    }
}

} // verus!

//! IPv6 text: the forms the standard parser accepts, read into the eight segments.

use vstd::prelude::*;

verus! {

/// The value of a hexadecimal digit in either case.
pub open spec fn hex_value(c: char) -> Option<nat> {
    if '0' <= c && c <= '9' {
        Some(((c as u32) - ('0' as u32)) as nat)
    } else if 'a' <= c && c <= 'f' {
        Some(((c as u32) - ('a' as u32) + 10) as nat)
    } else if 'A' <= c && c <= 'F' {
        Some(((c as u32) - ('A' as u32) + 10) as nat)
    } else {
        None
    }
}

/// The length of the run of digits of base `radix` (10 or 16) that starts at `pos`.
pub open spec fn digit_run(s: Seq<char>, pos: int, radix: nat) -> nat
    decreases s.len() - pos,
{
    if pos < 0 || pos >= s.len() {
        0
    } else if (radix == 16 && hex_value(s[pos]) is Some) || (radix == 10 && '0' <= s[pos] && s[pos] <= '9') {
        1 + digit_run(s, pos + 1, radix)
    } else {
        0
    }
}

/// The value of the `k` digits (base `radix`) starting at `pos`.
pub open spec fn run_value(s: Seq<char>, pos: int, k: nat, radix: nat) -> nat
    decreases k,
{
    if k == 0 {
        0
    } else {
        run_value(s, pos, (k - 1) as nat, radix) * radix + hex_value(s[pos + k - 1]).unwrap_or(0)
    }
}

/// A segment written at `pos`: one to four hexadecimal digits, and where it ends.
pub open spec fn read_segment(s: Seq<char>, pos: int) -> Option<(u16, int)> {
    let k = digit_run(s, pos, 16);
    if k == 0 || k > 4 { None } else { Some((run_value(s, pos, k, 16) as u16, pos + k)) }
}

/// An IPv4 octet written at `pos`: one to three decimal digits, no leading zero unless it
/// is the only digit, a value of at most 255; and where it ends.
pub open spec fn read_octet(s: Seq<char>, pos: int) -> Option<(u8, int)> {
    let k = digit_run(s, pos, 10);
    if k == 0 || k > 3 || (k > 1 && s[pos] == '0') || run_value(s, pos, k, 10) > 255 {
        None
    } else {
        Some((run_value(s, pos, k, 10) as u8, pos + k))
    }
}

/// Whether `c` stands at `pos`.
pub open spec fn char_at(s: Seq<char>, pos: int, c: char) -> bool {
    0 <= pos < s.len() && s[pos] == c
}

/// A dotted IPv4 address written at `pos`, as two segments, and where it ends.
pub open spec fn read_embedded_ipv4(s: Seq<char>, pos: int) -> Option<(u16, u16, int)> {
    match read_octet(s, pos) {
        None => None,
        Some((a, p1)) => if !char_at(s, p1, '.') { None } else {
            match read_octet(s, p1 + 1) {
                None => None,
                Some((b, p2)) => if !char_at(s, p2, '.') { None } else {
                    match read_octet(s, p2 + 1) {
                        None => None,
                        Some((c, p3)) => if !char_at(s, p3, '.') { None } else {
                            match read_octet(s, p3 + 1) {
                                None => None,
                                Some((d, p4)) => Some(((a as u16 * 256 + b as u16) as u16, (c as u16 * 256 + d as u16) as u16, p4)),
                            }
                        },
                    }
                },
            }
        },
    }
}

/// Reads colon-separated segments from `pos`, the `i`-th of at most `limit`: at each
/// place a dotted IPv4 address (taking two segments, and ending the run) is tried first
/// when two places are left, then a hexadecimal segment; the run stops at the first place
/// where neither reads. Gives the segments, where they end, and whether IPv4 ended them.
pub open spec fn read_segments(s: Seq<char>, pos: int, i: nat, limit: nat) -> (Seq<u16>, int, bool)
    decreases limit - i,
{
    if i >= limit {
        (Seq::empty(), pos, false)
    } else {
        let sep_ok = i == 0 || char_at(s, pos, ':');
        let start = if i > 0 { pos + 1 } else { pos };
        if sep_ok && i + 1 < limit && read_embedded_ipv4(s, start) is Some {
            let (hi, lo, e) = read_embedded_ipv4(s, start).unwrap();
            (seq![hi, lo], e, true)
        } else if sep_ok && read_segment(s, start) is Some {
            let (g, e) = read_segment(s, start).unwrap();
            let (rest, end, v4) = read_segments(s, e, i + 1, limit);
            (seq![g] + rest, end, v4)
        } else {
            (Seq::empty(), pos, false)
        }
    }
}

/// The eight segments of the IPv6 address `s` writes, as `Ipv6Addr::from_str` reads them:
/// eight segments, or fewer around one `::` that stands for the missing zero segments;
/// a dotted IPv4 address may end the text.
pub open spec fn ipv6_spec(s: Seq<char>) -> Option<Seq<u16>> {
    let (head, hp, hv4) = read_segments(s, 0, 0, 8);
    if head.len() == 8 {
        if hp == s.len() { Some(head) } else { None }
    } else if hv4 {
        None
    } else if char_at(s, hp, ':') && char_at(s, hp + 1, ':') {
        let (tail, tp, tv4) = read_segments(s, hp + 2, 0, (7 - head.len()) as nat);
        if tp == s.len() {
            Some(head + Seq::new((8 - head.len() - tail.len()) as nat, |k: int| 0u16) + tail)
        } else {
            None
        }
    } else {
        None
    }
}

} // verus!

verus! {

fn hex_value_exec(c: char) -> (r: Option<u32>)
    ensures
        r matches Some(v) ==> hex_value(c) == Some(v as nat) && v < 16,
        r is None ==> hex_value(c) is None,
{
    if '0' <= c && c <= '9' {
        Some(c as u32 - '0' as u32)
    } else if 'a' <= c && c <= 'f' {
        Some(c as u32 - 'a' as u32 + 10)
    } else if 'A' <= c && c <= 'F' {
        Some(c as u32 - 'A' as u32 + 10)
    } else {
        None
    }
}

fn is_radix_digit(c: char, radix: u32) -> (r: bool)
    requires
        radix == 10 || radix == 16,
    ensures
        r == ((radix == 16 && hex_value(c) is Some) || (radix == 10 && '0' <= c && c <= '9')),
{
    if radix == 16 { hex_value_exec(c).is_some() } else { '0' <= c && c <= '9' }
}

pub(crate) proof fn lemma_digit_run_step(s: Seq<char>, pos: int, radix: nat, k: nat)
    requires
        0 <= pos,
        forall|m: int| pos <= m < pos + k ==> m < s.len() && ((radix == 16 && hex_value(#[trigger] s[m]) is Some) || (radix == 10 && '0' <= s[m] && s[m] <= '9')),
        pos + k >= s.len() || !((radix == 16 && hex_value(s[pos + k]) is Some) || (radix == 10 && '0' <= s[pos + k] && s[pos + k] <= '9')),
    ensures
        digit_run(s, pos, radix) == k,
    decreases k,
{
    if k > 0 {
        lemma_digit_run_step(s, pos + 1, radix, (k - 1) as nat);
    }
}

/// The run of digits at `pos`, counted up to `cap` (more than `cap` means the run is longer).
fn digit_run_capped(s: &[char], pos: usize, radix: u32, cap: usize) -> (r: usize)
    requires
        radix == 10 || radix == 16,
        pos <= s@.len(),
        cap < 8,
    ensures
        r <= cap + 1,
        r <= cap ==> r == digit_run(s@, pos as int, radix as nat),
        r == cap + 1 ==> digit_run(s@, pos as int, radix as nat) > cap,
        pos + r <= s@.len(),
{
    let mut k: usize = 0;
    while k <= cap && k < s.len() - pos && is_radix_digit(s[pos + k], radix)
        invariant
            radix == 10 || radix == 16,
            pos <= s@.len(),
            cap < 8,
            k <= cap + 1,
            pos + k <= s@.len(),
            forall|m: int| pos <= m < pos + k ==> ((radix == 16 && hex_value(#[trigger] s@[m]) is Some) || (radix == 10 && '0' <= s@[m] && s@[m] <= '9')),
        decreases cap + 1 - k,
    {
        k = k + 1;
    }
    proof {
        if k <= cap {
            lemma_digit_run_step(s@, pos as int, radix as nat, k as nat);
        } else {
            lemma_digit_run_lower(s@, pos as int, radix as nat, k as nat);
        }
    }
    k
}

proof fn lemma_digit_run_lower(s: Seq<char>, pos: int, radix: nat, k: nat)
    requires
        0 <= pos,
        forall|m: int| pos <= m < pos + k ==> m < s.len() && ((radix == 16 && hex_value(#[trigger] s[m]) is Some) || (radix == 10 && '0' <= s[m] && s[m] <= '9')),
    ensures
        digit_run(s, pos, radix) >= k,
    decreases k,
{
    if k > 0 {
        lemma_digit_run_lower(s, pos + 1, radix, (k - 1) as nat);
    }
}

fn run_value_exec(s: &[char], pos: usize, k: usize, radix: u32) -> (r: u32)
    requires
        radix == 10 || radix == 16,
        k <= 4,
        pos + k <= s@.len(),
        forall|m: int| pos <= m < pos + k ==> hex_value(#[trigger] s@[m]) is Some,
        radix == 10 ==> forall|m: int| pos <= m < pos + k ==> ('0' <= #[trigger] s@[m] && s@[m] <= '9'),
    ensures
        r == run_value(s@, pos as int, k as nat, radix as nat),
        r < 0x10000,
{
    let n = s.len();
    let mut v: u32 = 0;
    let mut j: usize = 0;
    while j < k
        invariant
            n == s@.len(),
            radix == 10 || radix == 16,
            k <= 4,
            j <= k,
            pos + k <= s@.len(),
            forall|m: int| pos <= m < pos + k ==> hex_value(#[trigger] s@[m]) is Some,
            radix == 10 ==> forall|m: int| pos <= m < pos + k ==> ('0' <= #[trigger] s@[m] && s@[m] <= '9'),
            v == run_value(s@, pos as int, j as nat, radix as nat),
            j == 0 ==> v == 0,
            j == 1 ==> v < 16,
            j == 2 ==> v < 256,
            j == 3 ==> v < 4096,
            j == 4 ==> v < 65536,
        decreases k - j,
    {
        let d = hex_value_exec(s[pos + j]);
        let dv = match d {
            Some(x) => x,
            None => 0,
        };
        proof {
            assert(hex_value(s@[pos + j]) is Some);
            if radix == 10 {
                assert('0' <= s@[pos + j] && s@[pos + j] <= '9');
                assert(dv < 10);
            }
        }
        v = if radix == 16 { v * 16 + dv } else { v * 10 + dv };
        j = j + 1;
    }
    v
}

/// Reads a hexadecimal segment at `pos` (see `read_segment`).
fn read_segment_exec(s: &[char], pos: usize) -> (r: Option<(u16, usize)>)
    requires
        pos <= s@.len(),
    ensures
        r matches Some((g, e)) ==> read_segment(s@, pos as int) == Some((g, e as int)) && e <= s@.len(),
        r is None ==> read_segment(s@, pos as int) is None,
{
    let n = s.len();
    let k = digit_run_capped(s, pos, 16, 4);
    if k == 0 || k > 4 {
        return None;
    }
    proof {
        lemma_run_digits(s@, pos as int, 16, k as nat);
    }
    let v = run_value_exec(s, pos, k, 16);
    Some((v as u16, pos + k))
}

proof fn lemma_run_digits(s: Seq<char>, pos: int, radix: nat, k: nat)
    requires
        0 <= pos,
        k <= digit_run(s, pos, radix),
        radix == 10 || radix == 16,
    ensures
        forall|m: int| pos <= m < pos + k ==> m < s.len() && hex_value(#[trigger] s[m]) is Some,
        radix == 10 ==> forall|m: int| pos <= m < pos + k ==> ('0' <= #[trigger] s[m] && s[m] <= '9'),
    decreases k,
{
    if k > 0 {
        lemma_run_digits(s, pos + 1, radix, (k - 1) as nat);
        assert(pos < s.len());
        assert((radix == 16 && hex_value(s[pos]) is Some) || (radix == 10 && '0' <= s[pos] && s[pos] <= '9'));
    }
}

/// Reads an IPv4 octet at `pos` (see `read_octet`).
fn read_octet_exec(s: &[char], pos: usize) -> (r: Option<(u8, usize)>)
    requires
        pos <= s@.len(),
    ensures
        r matches Some((o, e)) ==> read_octet(s@, pos as int) == Some((o, e as int)) && e <= s@.len(),
        r is None ==> read_octet(s@, pos as int) is None,
{
    let n = s.len();
    let k = digit_run_capped(s, pos, 10, 3);
    if k == 0 || k > 3 {
        return None;
    }
    if k > 1 && s[pos] == '0' {
        return None;
    }
    proof {
        lemma_run_digits(s@, pos as int, 10, k as nat);
    }
    let v = run_value_exec(s, pos, k, 10);
    if v > 255 {
        return None;
    }
    Some((v as u8, pos + k))
}

/// Reads a dotted IPv4 address at `pos` (see `read_embedded_ipv4`).
fn read_embedded_ipv4_exec(s: &[char], pos: usize) -> (r: Option<(u16, u16, usize)>)
    requires
        pos <= s@.len(),
    ensures
        r matches Some((hi, lo, e)) ==> read_embedded_ipv4(s@, pos as int) == Some((hi, lo, e as int)) && e <= s@.len(),
        r is None ==> read_embedded_ipv4(s@, pos as int) is None,
{
    let (a, p1) = match read_octet_exec(s, pos) {
        Some(x) => x,
        None => return None,
    };
    if !(p1 < s.len() && s[p1] == '.') {
        return None;
    }
    let (b, p2) = match read_octet_exec(s, p1 + 1) {
        Some(x) => x,
        None => return None,
    };
    if !(p2 < s.len() && s[p2] == '.') {
        return None;
    }
    let (c, p3) = match read_octet_exec(s, p2 + 1) {
        Some(x) => x,
        None => return None,
    };
    if !(p3 < s.len() && s[p3] == '.') {
        return None;
    }
    let (d, p4) = match read_octet_exec(s, p3 + 1) {
        Some(x) => x,
        None => return None,
    };
    Some(((a as u16) * 256 + (b as u16), (c as u16) * 256 + (d as u16), p4))
}

/// Reads colon-separated segments at `pos` (see `read_segments`).
#[verifier::rlimit(40)]
#[verifier::spinoff_prover]
fn read_segments_exec(s: &[char], pos: usize, limit: usize) -> (r: (Vec<u16>, usize, bool))
    requires
        pos <= s@.len(),
        limit <= 8,
    ensures
        (r.0@, r.1 as int, r.2) == read_segments(s@, pos as int, 0, limit as nat),
        r.1 <= s@.len(),
        r.0@.len() <= limit,
{
    let mut acc: Vec<u16> = Vec::new();
    let mut cur = pos;
    let mut i: usize = 0;
    while i < limit
        invariant
            cur <= s@.len(),
            i <= limit <= 8,
            acc@.len() == i,
            read_segments(s@, pos as int, 0, limit as nat) == ({
                let (rest, end, v4) = read_segments(s@, cur as int, i as nat, limit as nat);
                (acc@ + rest, end, v4)
            }),
        decreases limit - i,
    {
        let sep_ok = i == 0 || (cur < s.len() && s[cur] == ':');
        if !sep_ok {
            proof {
                assert(acc@ + Seq::<u16>::empty() =~= acc@);
            }
            return (acc, cur, false);
        }
        let start = if i > 0 { cur + 1 } else { cur };
        if i + 1 < limit {
            match read_embedded_ipv4_exec(s, start) {
                Some((hi, lo, e)) => {
                    let ghost before = acc@;
                    acc.push(hi);
                    acc.push(lo);
                    proof {
                        assert(acc@ =~= before + seq![hi, lo]);
                    }
                    return (acc, e, true);
                },
                None => {},
            }
        }
        match read_segment_exec(s, start) {
            Some((g, e)) => {
                let ghost before = acc@;
                acc.push(g);
                proof {
                    let (rest, end, v4) = read_segments(s@, e as int, (i + 1) as nat, limit as nat);
                    assert(before + (seq![g] + rest) =~= acc@ + rest);
                }
                cur = e;
                i = i + 1;
            },
            None => {
                proof {
                    assert(acc@ + Seq::<u16>::empty() =~= acc@);
                }
                return (acc, cur, false);
            },
        }
    }
    proof {
        assert(acc@ + Seq::<u16>::empty() =~= acc@);
    }
    (acc, cur, false)
}

/// Reads an IPv6 address (see `ipv6_spec`).
pub fn parse_ipv6(s: &[char]) -> (r: Option<[u16; 8]>)
    ensures
        r matches Some(a) ==> ipv6_spec(s@) == Some(a@),
        r is None ==> ipv6_spec(s@) is None,
{
    let (head, hp, hv4) = read_segments_exec(s, 0, 8);
    let n = s.len();
    if head.len() == 8 {
        if hp == n {
            let a = [head[0], head[1], head[2], head[3], head[4], head[5], head[6], head[7]];
            proof {
                assert(a@ =~= head@);
            }
            return Some(a);
        }
        return None;
    }
    if hv4 {
        return None;
    }
    if !(hp < n && hp + 1 < n && s[hp] == ':' && s[hp + 1] == ':') {
        return None;
    }
    let (tail, tp, _tv4) = read_segments_exec(s, hp + 2, 7 - head.len());
    if tp != n {
        return None;
    }
    let mut a: [u16; 8] = [0; 8];
    let h = head.len();
    let t = tail.len();
    let ghost zeros = Seq::new((8 - h - t) as nat, |k: int| 0u16);
    let ghost full = head@ + zeros + tail@;
    let mut j: usize = 0;
    while j < 8
        invariant
            j <= 8,
            h == head@.len(),
            t == tail@.len(),
            h + t <= 7,
            full == head@ + zeros + tail@,
            zeros == Seq::new((8 - h - t) as nat, |k: int| 0u16),
            full.len() == 8,
            forall|m: int| 0 <= m < j ==> a@[m] == full[m],
        decreases 8 - j,
    {
        let v = if j < h { head[j] } else if j >= 8 - t { tail[j - (8 - t)] } else { 0 };
        proof {
            if j < h {
                assert(full[j as int] == head@[j as int]);
            } else if j >= 8 - t {
                assert(full[j as int] == tail@[j - (8 - t)]);
            } else {
                assert(full[j as int] == zeros[j - h]);
            }
        }
        a[j] = v;
        j = j + 1;
    }
    proof {
        assert(a@ =~= full);
    }
    Some(a)
}

} // verus!

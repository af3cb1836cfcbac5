//! Reading back the text of an address: the parser gives back what the renderer wrote.

use vstd::prelude::*;
use crate::ip::{hex_char, hex_digits, hex_join, ipv4_text, ipv6_text, ip_text, ip_spec, ipv4_spec, longest_zero_run, zero_run_scan, IpAddress};
use crate::ipv6::{digit_run, hex_value, ipv6_spec, lemma_digit_run_step, read_embedded_ipv4, read_octet, read_segment, read_segments, run_value, char_at};
use crate::text::{digit_char, digits};

verus! {

proof fn lemma_hex_char_value(d: nat)
    requires
        d < 16,
    ensures
        hex_value(hex_char(d)) == Some(d),
        hex_char(d) != ':',
        hex_char(d) != '.',
{
}

proof fn lemma_digit_char_value(d: nat)
    requires
        d < 10,
    ensures
        hex_value(digit_char(d)) == Some(d),
        '0' <= digit_char(d) <= '9',
{
}

proof fn lemma_hex_digits_shape(n: nat)
    ensures
        1 <= hex_digits(n).len(),
        n < 16 ==> hex_digits(n).len() <= 1,
        n < 256 ==> hex_digits(n).len() <= 2,
        n < 4096 ==> hex_digits(n).len() <= 3,
        n < 65536 ==> hex_digits(n).len() <= 4,
        forall|m: int| 0 <= m < hex_digits(n).len() ==> hex_value(#[trigger] hex_digits(n)[m]) is Some,
    decreases n,
{
    if n < 16 {
        lemma_hex_char_value(n);
    } else {
        lemma_hex_digits_shape(n / 16);
        lemma_hex_char_value(n % 16);
        let t = hex_digits(n / 16);
        assert forall|m: int| 0 <= m < hex_digits(n).len() implies hex_value(#[trigger] hex_digits(n)[m]) is Some by {
            if m < t.len() {
                assert(hex_digits(n)[m] == t[m]);
            }
        }
    }
}

proof fn lemma_hex_digits_value(s: Seq<char>, pos: int, n: nat)
    requires
        0 <= pos,
        pos + hex_digits(n).len() <= s.len(),
        s.subrange(pos, pos + hex_digits(n).len()) == hex_digits(n),
    ensures
        run_value(s, pos, hex_digits(n).len(), 16) == n,
    decreases n,
{
    let t = hex_digits(n);
    if n < 16 {
        lemma_hex_char_value(n);
        assert(s[pos] == s.subrange(pos, pos + t.len())[0]);
        assert(run_value(s, pos, 0, 16) == 0);
    } else {
        let u = hex_digits(n / 16);
        assert(s.subrange(pos, pos + u.len()) =~= s.subrange(pos, pos + t.len()).subrange(0, u.len() as int));
        assert(t.subrange(0, u.len() as int) =~= u);
        lemma_hex_digits_value(s, pos, n / 16);
        lemma_hex_char_value(n % 16);
        assert(s[pos + u.len()] == s.subrange(pos, pos + t.len())[u.len() as int]);
        assert(t[u.len() as int] == hex_char(n % 16));
    }
}

proof fn lemma_digits_dec_value(s: Seq<char>, pos: int, n: nat)
    requires
        0 <= pos,
        pos + digits(n).len() <= s.len(),
        s.subrange(pos, pos + digits(n).len()) == digits(n),
    ensures
        run_value(s, pos, digits(n).len(), 10) == n,
        forall|m: int| pos <= m < pos + digits(n).len() ==> '0' <= #[trigger] s[m] <= '9',
    decreases n,
{
    let t = digits(n);
    if n < 10 {
        lemma_digit_char_value(n);
        assert(s[pos] == s.subrange(pos, pos + t.len())[0]);
        assert(run_value(s, pos, 0, 10) == 0);
    } else {
        let u = digits(n / 10);
        assert(s.subrange(pos, pos + u.len()) =~= s.subrange(pos, pos + t.len()).subrange(0, u.len() as int));
        assert(t.subrange(0, u.len() as int) =~= u);
        lemma_digits_dec_value(s, pos, n / 10);
        lemma_digit_char_value(n % 10);
        assert(s[pos + u.len()] == s.subrange(pos, pos + t.len())[u.len() as int]);
        assert(t[u.len() as int] == digit_char(n % 10));
    }
}

proof fn lemma_read_hex_segment(s: Seq<char>, pos: int, g: u16)
    requires
        0 <= pos,
        pos + hex_digits(g as nat).len() <= s.len(),
        s.subrange(pos, pos + hex_digits(g as nat).len()) == hex_digits(g as nat),
        pos + hex_digits(g as nat).len() == s.len() || s[pos + hex_digits(g as nat).len()] == ':',
    ensures
        read_segment(s, pos) == Some((g, pos + hex_digits(g as nat).len())),
{
    let t = hex_digits(g as nat);
    let k = t.len();
    lemma_hex_digits_shape(g as nat);
    assert forall|m: int| pos <= m < pos + k implies m < s.len() && ((16nat == 16 && hex_value(#[trigger] s[m]) is Some) || (16nat == 10 && '0' <= s[m] && s[m] <= '9')) by {
        assert(s[m] == s.subrange(pos, pos + k)[m - pos]);
        assert(hex_value(t[m - pos]) is Some);
    }
    lemma_digit_run_step(s, pos, 16, k);
    lemma_hex_digits_value(s, pos, g as nat);
}

proof fn lemma_read_dec_octet(s: Seq<char>, pos: int, x: u8)
    requires
        0 <= pos,
        pos + digits(x as nat).len() <= s.len(),
        s.subrange(pos, pos + digits(x as nat).len()) == digits(x as nat),
        pos + digits(x as nat).len() == s.len() || s[pos + digits(x as nat).len()] == '.',
    ensures
        read_octet(s, pos) == Some((x, pos + digits(x as nat).len())),
{
    let t = digits(x as nat);
    let k = t.len();
    crate::ip::lemma_digits_roundtrip(x as nat);
    lemma_digits_dec_value(s, pos, x as nat);
    lemma_digit_run_step(s, pos, 10, k);
    assert(s[pos] == t[0]);
}

/// Where `s` ends with the dotted text of `a.b.c.d` from `pos` on, the dotted reader takes it whole.
proof fn lemma_read_ipv4_text(s: Seq<char>, pos: int, a: u8, b: u8, c: u8, d: u8)
    requires
        0 <= pos <= s.len(),
        s.subrange(pos, s.len() as int) == ipv4_text(a, b, c, d),
    ensures
        read_embedded_ipv4(s, pos) == Some((((a as u16) * 256 + b as u16) as u16, ((c as u16) * 256 + d as u16) as u16, s.len() as int)),
{
    let da = digits(a as nat);
    let db = digits(b as nat);
    let dc = digits(c as nat);
    let dd = digits(d as nat);
    let w = s.subrange(pos, s.len() as int);
    let p1 = pos + da.len();
    let p2 = p1 + 1 + db.len();
    let p3 = p2 + 1 + dc.len();
    assert(w =~= da + seq!['.'] + db + seq!['.'] + dc + seq!['.'] + dd);
    assert(s.subrange(pos, p1) =~= da) by {
        assert forall|m: int| 0 <= m < da.len() implies s.subrange(pos, p1)[m] == da[m] by {
            assert(s.subrange(pos, p1)[m] == w[m]);
        }
    }
    assert(s[p1] == w[p1 - pos]);
    lemma_read_dec_octet(s, pos, a);
    assert(s.subrange(p1 + 1, p2) =~= db) by {
        assert forall|m: int| 0 <= m < db.len() implies s.subrange(p1 + 1, p2)[m] == db[m] by {
            assert(s.subrange(p1 + 1, p2)[m] == w[p1 + 1 + m - pos]);
        }
    }
    assert(s[p2] == w[p2 - pos]);
    lemma_read_dec_octet(s, p1 + 1, b);
    assert(s.subrange(p2 + 1, p3) =~= dc) by {
        assert forall|m: int| 0 <= m < dc.len() implies s.subrange(p2 + 1, p3)[m] == dc[m] by {
            assert(s.subrange(p2 + 1, p3)[m] == w[p2 + 1 + m - pos]);
        }
    }
    assert(s[p3] == w[p3 - pos]);
    lemma_read_dec_octet(s, p2 + 1, c);
    assert(s.subrange(p3 + 1, s.len() as int) =~= dd) by {
        assert forall|m: int| 0 <= m < dd.len() implies s.subrange(p3 + 1, s.len() as int)[m] == dd[m] by {
            assert(s.subrange(p3 + 1, s.len() as int)[m] == w[p3 + 1 + m - pos]);
        }
    }
    lemma_read_dec_octet(s, p3 + 1, d);
    assert(char_at(s, p1, '.'));
    assert(char_at(s, p2, '.'));
    assert(char_at(s, p3, '.'));
}

/// Each segment in hexadecimal, preceded by a colon.
spec fn colon_hex(gs: Seq<u16>) -> Seq<char>
    decreases gs.len(),
{
    if gs.len() == 0 { Seq::empty() } else { seq![':'] + hex_digits(gs[0] as nat) + colon_hex(gs.drop_first()) }
}

/// Every character is a hexadecimal digit or a colon.
spec fn hexish(t: Seq<char>) -> bool {
    forall|m: int| 0 <= m < t.len() ==> (#[trigger] t[m] == ':' || hex_value(t[m]) is Some)
}

proof fn lemma_colon_hex_push(t: Seq<u16>, y: u16)
    ensures
        colon_hex(t.push(y)) == colon_hex(t) + seq![':'] + hex_digits(y as nat),
    decreases t.len(),
{
    if t.len() == 0 {
        let u = t.push(y);
        assert(u.drop_first() =~= Seq::<u16>::empty());
        assert(colon_hex(u.drop_first()) == Seq::<char>::empty());
        assert(colon_hex(t) == Seq::<char>::empty());
        assert(u[0] == y);
        assert(colon_hex(u) == seq![':'] + hex_digits(y as nat) + colon_hex(u.drop_first()));
        assert(colon_hex(u) =~= colon_hex(t) + seq![':'] + hex_digits(y as nat));
    } else {
        let u = t.push(y);
        assert(u.drop_first() =~= t.drop_first().push(y));
        lemma_colon_hex_push(t.drop_first(), y);
        assert(u[0] == t[0]);
        assert(colon_hex(u) == seq![':'] + hex_digits(t[0] as nat) + colon_hex(t.drop_first().push(y)));
        assert(colon_hex(t) == seq![':'] + hex_digits(t[0] as nat) + colon_hex(t.drop_first()));
        assert(colon_hex(u) =~= colon_hex(t) + seq![':'] + hex_digits(y as nat));
    }
}

proof fn lemma_hex_join_split(gs: Seq<u16>)
    requires
        gs.len() >= 1,
    ensures
        hex_join(gs) == hex_digits(gs[0] as nat) + colon_hex(gs.drop_first()),
    decreases gs.len(),
{
    if gs.len() == 1 {
        assert(gs.drop_first() =~= Seq::<u16>::empty());
        assert(hex_join(gs) =~= hex_digits(gs[0] as nat) + colon_hex(gs.drop_first()));
    } else {
        let f = gs.drop_last();
        lemma_hex_join_split(f);
        let t = f.drop_first();
        lemma_colon_hex_push(t, gs.last());
        assert(t.push(gs.last()) =~= gs.drop_first());
        assert(hex_join(gs) =~= hex_digits(gs[0] as nat) + colon_hex(gs.drop_first()));
    }
}

proof fn lemma_hex_digits_hexish(n: nat)
    ensures
        hexish(hex_digits(n)),
{
    lemma_hex_digits_shape(n);
    assert forall|m: int| 0 <= m < hex_digits(n).len() implies (#[trigger] hex_digits(n)[m] == ':' || hex_value(hex_digits(n)[m]) is Some) by {
    }
}

proof fn lemma_hexish_concat(a: Seq<char>, b: Seq<char>)
    requires
        hexish(a),
        hexish(b),
    ensures
        hexish(a + b),
{
    assert forall|m: int| 0 <= m < (a + b).len() implies (#[trigger] (a + b)[m] == ':' || hex_value((a + b)[m]) is Some) by {
        if m < a.len() {
            assert((a + b)[m] == a[m]);
        } else {
            assert((a + b)[m] == b[m - a.len()]);
        }
    }
}

proof fn lemma_hex_join_hexish(gs: Seq<u16>)
    ensures
        hexish(hex_join(gs)),
    decreases gs.len(),
{
    if gs.len() == 1 {
        lemma_hex_digits_hexish(gs[0] as nat);
    } else if gs.len() > 1 {
        lemma_hex_join_hexish(gs.drop_last());
        lemma_hex_digits_hexish(gs.last() as nat);
        assert(hexish(seq![':'])) by {
            assert forall|m: int| 0 <= m < seq![':'].len() implies (#[trigger] seq![':'][m] == ':' || hex_value(seq![':'][m]) is Some) by {
            }
        }
        lemma_hexish_concat(hex_join(gs.drop_last()), seq![':']);
        lemma_hexish_concat(hex_join(gs.drop_last()) + seq![':'], hex_digits(gs.last() as nat));
    }
}

proof fn lemma_hexish_no_ipv4(s: Seq<char>, pos: int)
    requires
        hexish(s),
    ensures
        read_embedded_ipv4(s, pos) is None,
{
    match read_octet(s, pos) {
        None => {},
        Some((a, p1)) => {
            if 0 <= p1 < s.len() {
                assert(s[p1] == ':' || hex_value(s[p1]) is Some);
            }
            assert(!char_at(s, p1, '.'));
        },
    }
}

/// Nothing is read where no digit stands.
proof fn lemma_read_nothing(s: Seq<char>, pos: int, limit: nat)
    requires
        pos >= s.len() || !(hex_value(s[pos]) is Some),
    ensures
        read_segments(s, pos, 0, limit) == (Seq::<u16>::empty(), pos, false),
{
    assert(digit_run(s, pos, 16) == 0);
    assert(digit_run(s, pos, 10) == 0) by {
        if 0 <= pos < s.len() {
            assert(!('0' <= s[pos] && s[pos] <= '9'));
        }
    }
}

/// A run of colon-led segments is read whole, and reading stops where it ends.
proof fn lemma_read_colon_run(s: Seq<char>, pos: int, i: nat, limit: nat, gs: Seq<u16>)
    requires
        0 < i,
        i + gs.len() <= limit,
        0 <= pos,
        pos + colon_hex(gs).len() <= s.len(),
        s.subrange(pos, pos + colon_hex(gs).len()) == colon_hex(gs),
        hexish(s),
        pos + colon_hex(gs).len() == s.len() || s[pos + colon_hex(gs).len()] == ':',
        i + gs.len() == limit || !char_at(s, pos + colon_hex(gs).len(), ':') || read_segment(s, pos + colon_hex(gs).len() + 1) is None,
    ensures
        read_segments(s, pos, i, limit) == (gs, pos + colon_hex(gs).len(), false),
    decreases gs.len(),
{
    let e = pos + colon_hex(gs).len();
    if gs.len() == 0 {
        lemma_hexish_no_ipv4(s, pos + 1);
        assert(gs =~= Seq::<u16>::empty());
    } else {
        let g = gs[0];
        let rest = gs.drop_first();
        let h = hex_digits(g as nat);
        let c = colon_hex(gs);
        assert(c =~= seq![':'] + h + colon_hex(rest));
        let q = pos + 1 + h.len();
        assert(s[pos] == c[0]);
        assert(s.subrange(pos + 1, q) =~= h) by {
            assert forall|m: int| 0 <= m < h.len() implies s.subrange(pos + 1, q)[m] == h[m] by {
                assert(s.subrange(pos + 1, q)[m] == s.subrange(pos, e)[1 + m]);
            }
        }
        assert(s.subrange(q, e) =~= colon_hex(rest)) by {
            assert forall|m: int| 0 <= m < colon_hex(rest).len() implies s.subrange(q, e)[m] == colon_hex(rest)[m] by {
                assert(s.subrange(q, e)[m] == s.subrange(pos, e)[1 + h.len() + m]);
            }
        }
        if rest.len() > 0 {
            assert(colon_hex(rest)[0] == ':');
            assert(s[q] == s.subrange(q, e)[0]);
        }
        lemma_read_hex_segment(s, pos + 1, g);
        lemma_hexish_no_ipv4(s, pos + 1);
        lemma_read_colon_run(s, q, i + 1, limit, rest);
        assert(seq![g] + rest =~= gs);
    }
}

/// A run of segments written as `hex_join` is read whole from its first segment.
proof fn lemma_read_hex_chunk(s: Seq<char>, pos: int, limit: nat, gs: Seq<u16>)
    requires
        1 <= gs.len() <= limit,
        0 <= pos,
        pos + hex_join(gs).len() <= s.len(),
        s.subrange(pos, pos + hex_join(gs).len()) == hex_join(gs),
        hexish(s),
        pos + hex_join(gs).len() == s.len() || s[pos + hex_join(gs).len()] == ':',
        gs.len() == limit || !char_at(s, pos + hex_join(gs).len(), ':') || read_segment(s, pos + hex_join(gs).len() + 1) is None,
    ensures
        read_segments(s, pos, 0, limit) == (gs, pos + hex_join(gs).len(), false),
{
    let g = gs[0];
    let rest = gs.drop_first();
    let h = hex_digits(g as nat);
    lemma_hex_join_split(gs);
    let e = pos + hex_join(gs).len();
    let q = pos + h.len();
    assert(s.subrange(pos, q) =~= h) by {
        assert forall|m: int| 0 <= m < h.len() implies s.subrange(pos, q)[m] == h[m] by {
            assert(s.subrange(pos, q)[m] == s.subrange(pos, e)[m]);
        }
    }
    assert(s.subrange(q, e) =~= colon_hex(rest)) by {
        assert forall|m: int| 0 <= m < colon_hex(rest).len() implies s.subrange(q, e)[m] == colon_hex(rest)[m] by {
            assert(s.subrange(q, e)[m] == s.subrange(pos, e)[h.len() + m]);
        }
    }
    if rest.len() > 0 {
        assert(colon_hex(rest)[0] == ':');
        assert(s[q] == s.subrange(q, e)[0]);
    }
    lemma_read_hex_segment(s, pos, g);
    lemma_hexish_no_ipv4(s, pos);
    lemma_read_colon_run(s, q, 1, limit, rest);
    assert(seq![g] + rest =~= gs);
}

proof fn lemma_zero_run_scan(seg: Seq<u16>, i: int, cur: (int, int), best: (int, int))
    requires
        0 <= i <= seg.len(),
        cur.1 >= 0,
        cur.1 > 0 ==> cur.0 >= 0 && cur.0 + cur.1 == i,
        forall|k: int| cur.0 <= k < cur.0 + cur.1 ==> #[trigger] seg[k] == 0,
        best.0 >= 0,
        best.1 >= 0,
        best.0 + best.1 <= i,
        forall|k: int| best.0 <= k < best.0 + best.1 ==> #[trigger] seg[k] == 0,
    ensures
        ({
            let r = zero_run_scan(seg, i, cur, best);
            &&& r.0 >= 0
            &&& r.1 >= 0
            &&& r.0 + r.1 <= seg.len()
            &&& forall|k: int| r.0 <= k < r.0 + r.1 ==> #[trigger] seg[k] == 0
        }),
    decreases seg.len() - i,
{
    if i < seg.len() {
        if seg[i] == 0 {
            let c = if cur.1 == 0 { (i, 1int) } else { (cur.0, cur.1 + 1) };
            let b = if c.1 > best.1 { c } else { best };
            lemma_zero_run_scan(seg, i + 1, c, b);
        } else {
            lemma_zero_run_scan(seg, i + 1, (0, 0), best);
        }
    }
}

proof fn lemma_hexish_no_dot_split(s: Seq<char>)
    requires
        hexish(s),
    ensures
        ipv4_spec(s) is None,
{
    assert forall|m: int| 0 <= m < s.len() implies #[trigger] s[m] != '.' by {
        assert(s[m] == ':' || hex_value(s[m]) is Some);
    }
    crate::scan::lemma_char_pos_exact(s, '.', s.len() as int);
}

proof fn lemma_compressed_roundtrip(seg: Seq<u16>, z0: int, z1: int)
    requires
        seg.len() == 8,
        0 <= z0,
        2 <= z1,
        z0 + z1 <= 8,
        forall|k: int| z0 <= k < z0 + z1 ==> #[trigger] seg[k] == 0,
    ensures
        ({
            let s = hex_join(seg.take(z0)) + "::"@ + hex_join(seg.skip(z0 + z1));
            &&& ipv6_spec(s) == Some(seg)
            &&& ipv4_spec(s) is None
        }),
{
    let a = seg.take(z0);
    let b = seg.skip(z0 + z1);
    let ca = hex_join(a);
    let cb = hex_join(b);
    let cc = "::"@;
    reveal_strlit("::");
    assert(cc =~= seq![':', ':']);
    let s = ca + cc + cb;
    let l = ca.len() as int;
    lemma_hex_join_hexish(a);
    lemma_hex_join_hexish(b);
    assert(hexish(cc)) by {
        assert forall|m: int| 0 <= m < cc.len() implies (#[trigger] cc[m] == ':' || hex_value(cc[m]) is Some) by {
        }
    }
    lemma_hexish_concat(ca, cc);
    lemma_hexish_concat(ca + cc, cb);
    assert(s[l] == ':');
    assert(s[l + 1] == ':');
    assert(hex_value(':') is None);
    if a.len() > 0 {
        assert(s.subrange(0, l) =~= ca);
        assert(digit_run(s, l + 1, 16) == 0);
        lemma_read_hex_chunk(s, 0, 8, a);
    } else {
        lemma_read_nothing(s, 0, 8);
        assert(a =~= Seq::<u16>::empty());
    }
    let limit = (7 - a.len()) as nat;
    if b.len() > 0 {
        assert(s.subrange(l + 2, s.len() as int) =~= cb);
        lemma_read_hex_chunk(s, l + 2, limit, b);
    } else {
        lemma_read_nothing(s, l + 2, limit);
        assert(b =~= Seq::<u16>::empty());
    }
    let zeros = Seq::new((8 - a.len() - b.len()) as nat, |k: int| 0u16);
    assert(a + zeros + b =~= seg) by {
        assert forall|k: int| 0 <= k < 8 implies (a + zeros + b)[k] == seg[k] by {
            if k < z0 {
            } else if k < z0 + z1 {
                assert(seg[k] == 0);
            } else {
                assert(b[k - z0 - z1] == seg[k]);
            }
        }
    }
    lemma_hexish_no_dot_split(s);
}

proof fn lemma_mapped_roundtrip(seg: Seq<u16>)
    requires
        seg.len() == 8,
        seg[0] == 0 && seg[1] == 0 && seg[2] == 0 && seg[3] == 0 && seg[4] == 0 && seg[5] == 0xffff,
    ensures
        ({
            let s = "::ffff:"@ + ipv4_text((seg[6] / 256) as u8, (seg[6] % 256) as u8, (seg[7] / 256) as u8, (seg[7] % 256) as u8);
            &&& ipv6_spec(s) == Some(seg)
            &&& ipv4_spec(s) is None
        }),
{
    let a = (seg[6] / 256) as u8;
    let b = (seg[6] % 256) as u8;
    let c = (seg[7] / 256) as u8;
    let d = (seg[7] % 256) as u8;
    let p = "::ffff:"@;
    reveal_strlit("::ffff:");
    assert(p =~= seq![':', ':', 'f', 'f', 'f', 'f', ':']);
    let t = ipv4_text(a, b, c, d);
    let s = p + t;
    assert(hex_value(':') is None);
    lemma_read_nothing(s, 0, 8);
    assert(hex_digits(15) =~= seq!['f']);
    assert(hex_digits(255) =~= seq!['f', 'f']);
    assert(hex_digits(4095) =~= seq!['f', 'f', 'f']);
    assert(hex_digits(65535) =~= seq!['f', 'f', 'f', 'f']);
    assert(s.subrange(2, 6) =~= hex_digits(0xffffu16 as nat));
    lemma_read_hex_segment(s, 2, 0xffff);
    assert(digit_run(s, 2, 10) == 0);
    assert(read_octet(s, 2) is None);
    assert(read_embedded_ipv4(s, 2) is None);
    assert(s.subrange(7, s.len() as int) =~= t);
    lemma_read_ipv4_text(s, 7, a, b, c, d);
    let hi = ((a as u16) * 256 + b as u16) as u16;
    let lo = ((c as u16) * 256 + d as u16) as u16;
    assert(hi == seg[6]);
    assert(lo == seg[7]);
    assert(char_at(s, 6, ':'));
    assert(read_segments(s, 6, 1, 7) == (seq![hi, lo], s.len() as int, true));
    assert(read_segments(s, 2, 0, 7) == (seq![0xffffu16] + seq![hi, lo], s.len() as int, true));
    let zeros = Seq::new(5, |k: int| 0u16);
    assert(Seq::<u16>::empty() + zeros + (seq![0xffffu16] + seq![hi, lo]) =~= seg);
    // the dotted reading stops at the first dot, well after the leading colon
    let k = crate::scan::char_pos(s, '.');
    crate::scan::lemma_char_pos_bound(s, '.');
    assert(s[0] == ':');
    if k < s.len() {
        let parts = crate::scan::split_char(s, '.');
        assert(parts[0] == s.take(k as int));
        assert(k > 0);
        assert(s.take(k as int)[0] == ':');
        assert(!crate::scan::is_digit(parts[0][0]));
    }
}

/// The text of an IPv6 address reads back as that address.
proof fn lemma_ipv6_text_roundtrip(seg: Seq<u16>)
    requires
        seg.len() == 8,
    ensures
        ipv6_spec(ipv6_text(seg)) == Some(seg),
        ipv4_spec(ipv6_text(seg)) is None,
{
    let s = ipv6_text(seg);
    if seg[0] == 0 && seg[1] == 0 && seg[2] == 0 && seg[3] == 0 && seg[4] == 0 && seg[5] == 0xffff {
        lemma_mapped_roundtrip(seg);
    } else {
        let z = longest_zero_run(seg);
        lemma_zero_run_scan(seg, 0, (0, 0), (0, 0));
        lemma_hex_join_hexish(seg);
        if z.1 > 1 {
            lemma_compressed_roundtrip(seg, z.0, z.1);
        } else {
            assert(s == hex_join(seg));
            assert(s.subrange(0, s.len() as int) =~= s);
            lemma_read_hex_chunk(s, 0, 8, seg);
            lemma_hexish_no_dot_split(s);
        }
    }
}

/// Reading back the text that `ip_to_string` writes for an address gives that address:
/// `parse_ip(ip_to_string(ip)) == Some(ip)` for every IPv4 and IPv6 address.
pub proof fn lemma_ip_text_roundtrip(ip: IpAddress)
    ensures
        ip_spec(ip_text(ip)) == Some(ip),
{
    match ip {
        IpAddress::V4(a, b, c, d) => {
            crate::ip::lemma_ipv4_text_roundtrip(a, b, c, d);
        },
        IpAddress::V6(s0, s1, s2, s3, s4, s5, s6, s7) => {
            let seg = seq![s0, s1, s2, s3, s4, s5, s6, s7];
            lemma_ipv6_text_roundtrip(seg);
        },
    }
}

} // verus!

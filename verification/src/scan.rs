//! Scanning of command output: whitespace, lines, words, affixes and number tokens.
//!
//! Everything works on the characters of the text; the specifications describe the
//! results of the usual `str` operations (`trim`, `lines`, `split_whitespace`, ...).

use vstd::prelude::*;

verus! {

/// Unicode white space, as `char::is_whitespace` defines it.
pub open spec fn is_ws(c: char) -> bool {
    let u = c as u32;
    ||| (0x09 <= u && u <= 0x0D)
    ||| u == 0x20
    ||| u == 0x85
    ||| u == 0xA0
    ||| u == 0x1680
    ||| (0x2000 <= u && u <= 0x200A)
    ||| u == 0x2028
    ||| u == 0x2029
    ||| u == 0x202F
    ||| u == 0x205F
    ||| u == 0x3000
}

pub fn is_ws_exec(c: char) -> (r: bool)
    ensures
        r == is_ws(c),
{
    let u = c as u32;
    (0x09 <= u && u <= 0x0D) || u == 0x20 || u == 0x85 || u == 0xA0 || u == 0x1680
        || (0x2000 <= u && u <= 0x200A) || u == 0x2028 || u == 0x2029 || u == 0x202F
        || u == 0x205F || u == 0x3000
}

/// Number of leading characters of `s` that are not white space.
pub open spec fn token_len(s: Seq<char>) -> nat
    decreases s.len(),
{
    if s.len() == 0 || is_ws(s[0]) { 0 } else { 1 + token_len(s.drop_first()) }
}

/// A word is no longer than the text it starts, and a text that starts with a non-space
/// character starts a word of at least one character.
pub proof fn lemma_token_len_bound(s: Seq<char>)
    ensures
        token_len(s) <= s.len(),
        s.len() > 0 && !is_ws(s[0]) ==> token_len(s) >= 1,
    decreases s.len(),
{
    if s.len() > 0 && !is_ws(s[0]) {
        lemma_token_len_bound(s.drop_first());
    }
}

/// The white-space separated words of `s`, as `split_whitespace` yields them.
pub open spec fn words(s: Seq<char>) -> Seq<Seq<char>>
    decreases s.len(),
{
    if s.len() == 0 {
        Seq::empty()
    } else if is_ws(s[0]) {
        words(s.drop_first())
    } else {
        let t = token_len(s);
        proof {
            lemma_token_len_bound(s);
        }
        seq![s.take(t as int)] + words(s.skip(t as int))
    }
}

proof fn lemma_token_len_exact(s: Seq<char>, k: int)
    requires
        0 <= k <= s.len(),
        forall|m: int| 0 <= m < k ==> !is_ws(#[trigger] s[m]),
        k == s.len() || is_ws(s[k]),
    ensures
        token_len(s) == k,
    decreases k,
{
    if k > 0 {
        let t = s.drop_first();
        assert forall|m: int| 0 <= m < k - 1 implies !is_ws(#[trigger] t[m]) by {
            assert(t[m] == s[m + 1]);
        }
        if k - 1 < t.len() {
            assert(t[k - 1] == s[k]);
        }
        lemma_token_len_exact(t, k - 1);
    }
}

/// The character sequences of a list of character vectors.
pub open spec fn vecs_view(v: Seq<Vec<char>>) -> Seq<Seq<char>> {
    v.map_values(|t: Vec<char>| t@)
}

/// The white-space separated words of `s`.
pub fn split_words(s: &[char]) -> (r: Vec<Vec<char>>)
    ensures
        vecs_view(r@) == words(s@),
{
    let n = s.len();
    let mut out: Vec<Vec<char>> = Vec::new();
    let mut i: usize = 0;
    proof {
        assert(s@.skip(0) =~= s@);
        assert(vecs_view(out@) =~= Seq::<Seq<char>>::empty());
    }
    while i < n
        invariant
            n == s@.len(),
            i <= n,
            words(s@) == vecs_view(out@) + words(s@.skip(i as int)),
        decreases n - i,
    {
        let ghost rest = s@.skip(i as int);
        if is_ws_exec(s[i]) {
            proof {
                assert(rest.drop_first() =~= s@.skip(i as int + 1));
            }
            i = i + 1;
        } else {
            let start = i;
            let mut tok: Vec<char> = Vec::new();
            while i < n && !is_ws_exec(s[i])
                invariant
                    n == s@.len(),
                    start <= i <= n,
                    tok@ =~= s@.subrange(start as int, i as int),
                    forall|m: int| start <= m < i ==> !is_ws(#[trigger] s@[m]),
                decreases n - i,
            {
                tok.push(s[i]);
                i = i + 1;
            }
            proof {
                assert forall|m: int| 0 <= m < i - start implies !is_ws(#[trigger] rest[m]) by {
                    assert(rest[m] == s@[start + m]);
                }
                if i < n {
                    assert(rest[i - start] == s@[i as int]);
                }
                lemma_token_len_exact(rest, i - start);
                assert(rest.take(i - start) =~= tok@);
                assert(rest.skip(i - start) =~= s@.skip(i as int));
                let ov = vecs_view(out@);
                assert(words(rest) == seq![tok@] + words(s@.skip(i as int)));
                assert(vecs_view(out@.push(tok)) =~= ov.push(tok@));
                assert(ov + words(rest) =~= ov.push(tok@) + words(s@.skip(i as int)));
            }
            out.push(tok);
        }
    }
    proof {
        assert(s@.skip(n as int) =~= Seq::<char>::empty());
        assert(vecs_view(out@) + Seq::<Seq<char>>::empty() =~= vecs_view(out@));
    }
    out
}

} // verus!

verus! {

/// Index of the first line feed in `s`, or its length when there is none.
pub open spec fn newline_pos(s: Seq<char>) -> nat
    decreases s.len(),
{
    if s.len() == 0 || s[0] == '\n' { 0 } else { 1 + newline_pos(s.drop_first()) }
}

/// The first line break lies within the text, and no line break stands before it.
pub proof fn lemma_newline_pos_bound(s: Seq<char>)
    ensures
        newline_pos(s) <= s.len(),
        newline_pos(s) < s.len() ==> s[newline_pos(s) as int] == '\n',
        forall|m: int| 0 <= m < newline_pos(s) ==> #[trigger] s[m] != '\n',
    decreases s.len(),
{
    if s.len() > 0 && s[0] != '\n' {
        lemma_newline_pos_bound(s.drop_first());
        assert forall|m: int| 0 <= m < newline_pos(s) implies #[trigger] s[m] != '\n' by {
            if m > 0 {
                assert(s[m] == s.drop_first()[m - 1]);
            }
        }
    }
}

proof fn lemma_newline_pos_exact(s: Seq<char>, k: int)
    requires
        0 <= k <= s.len(),
        forall|m: int| 0 <= m < k ==> #[trigger] s[m] != '\n',
        k == s.len() || s[k] == '\n',
    ensures
        newline_pos(s) == k,
    decreases k,
{
    if k > 0 {
        let t = s.drop_first();
        assert forall|m: int| 0 <= m < k - 1 implies #[trigger] t[m] != '\n' by {
            assert(t[m] == s[m + 1]);
        }
        if k - 1 < t.len() {
            assert(t[k - 1] == s[k]);
        }
        lemma_newline_pos_exact(t, k - 1);
    }
}

/// A line without the carriage return that ended it.
pub open spec fn strip_cr(l: Seq<char>) -> Seq<char> {
    if l.len() > 0 && l.last() == '\r' { l.drop_last() } else { l }
}

/// The lines of `s`, as `str::lines` yields them: split at line feeds, a carriage return
/// before a line feed dropped, and no empty line after a final line feed.
pub open spec fn lines(s: Seq<char>) -> Seq<Seq<char>>
    decreases s.len(),
{
    if s.len() == 0 {
        Seq::empty()
    } else {
        let n = newline_pos(s);
        proof {
            lemma_newline_pos_bound(s);
        }
        if n < s.len() {
            seq![strip_cr(s.take(n as int))] + lines(s.skip(n as int + 1))
        } else {
            seq![s]
        }
    }
}

/// The lines of `s`.
pub fn split_lines(s: &[char]) -> (r: Vec<Vec<char>>)
    ensures
        vecs_view(r@) == lines(s@),
{
    let n = s.len();
    let mut out: Vec<Vec<char>> = Vec::new();
    let mut i: usize = 0;
    proof {
        assert(s@.skip(0) =~= s@);
        assert(vecs_view(out@) =~= Seq::<Seq<char>>::empty());
    }
    while i < n
        invariant
            n == s@.len(),
            i <= n,
            lines(s@) == vecs_view(out@) + lines(s@.skip(i as int)),
        decreases n - i,
    {
        let ghost rest = s@.skip(i as int);
        let start = i;
        let mut line: Vec<char> = Vec::new();
        while i < n && s[i] != '\n'
            invariant
                n == s@.len(),
                start <= i <= n,
                line@ =~= s@.subrange(start as int, i as int),
                forall|m: int| start <= m < i ==> #[trigger] s@[m] != '\n',
            decreases n - i,
        {
            line.push(s[i]);
            i = i + 1;
        }
        proof {
            assert forall|m: int| 0 <= m < i - start implies #[trigger] rest[m] != '\n' by {
                assert(rest[m] == s@[start + m]);
            }
            if i < n {
                assert(rest[i - start] == s@[i as int]);
            }
            lemma_newline_pos_exact(rest, i - start);
        }
        let ghost ov = vecs_view(out@);
        if i < n {
            let len = line.len();
            if len > 0 && line[len - 1] == '\r' {
                line.pop();
            }
            proof {
                assert(rest.take(i - start) =~= s@.subrange(start as int, i as int));
                assert(line@ =~= strip_cr(rest.take(i - start)));
                assert(rest.skip(i - start + 1) =~= s@.skip(i as int + 1));
                assert(lines(rest) == seq![line@] + lines(s@.skip(i as int + 1)));
                assert(vecs_view(out@.push(line)) =~= ov.push(line@));
                assert(ov + lines(rest) =~= ov.push(line@) + lines(s@.skip(i as int + 1)));
            }
            out.push(line);
            i = i + 1;
        } else {
            proof {
                assert(rest =~= line@);
                assert(lines(rest) == seq![line@]);
                assert(s@.skip(i as int) =~= Seq::<char>::empty());
                assert(lines(s@.skip(i as int)) =~= Seq::<Seq<char>>::empty());
                assert(vecs_view(out@.push(line)) =~= ov.push(line@));
                assert(ov + lines(rest) =~= ov.push(line@) + lines(s@.skip(i as int)));
            }
            out.push(line);
        }
    }
    proof {
        assert(s@.skip(n as int) =~= Seq::<char>::empty());
        assert(vecs_view(out@) + Seq::<Seq<char>>::empty() =~= vecs_view(out@));
    }
    out
}

/// `s` without the leading characters that satisfy `p`.
pub open spec fn strip_start(s: Seq<char>, p: spec_fn(char) -> bool) -> Seq<char>
    decreases s.len(),
{
    if s.len() > 0 && p(s[0]) { strip_start(s.drop_first(), p) } else { s }
}

/// `s` without the trailing characters that satisfy `p`.
pub open spec fn strip_end(s: Seq<char>, p: spec_fn(char) -> bool) -> Seq<char>
    decreases s.len(),
{
    if s.len() > 0 && p(s.last()) { strip_end(s.drop_last(), p) } else { s }
}

/// White space as a predicate value.
pub open spec fn ws_pred() -> spec_fn(char) -> bool {
    |c: char| is_ws(c)
}

/// Membership in `set` as a predicate value.
pub open spec fn set_pred(set: Seq<char>) -> spec_fn(char) -> bool {
    |c: char| set.contains(c)
}

/// `s` without leading and trailing white space, as `str::trim` returns it.
pub open spec fn trim(s: Seq<char>) -> Seq<char> {
    strip_end(strip_start(s, ws_pred()), ws_pred())
}

/// `s` without the leading and trailing characters found in `set`, as `trim_matches` returns it.
pub open spec fn trim_set(s: Seq<char>, set: Seq<char>) -> Seq<char> {
    strip_end(strip_start(s, set_pred(set)), set_pred(set))
}

proof fn lemma_strip_start_at(s: Seq<char>, p: spec_fn(char) -> bool, k: int)
    requires
        0 <= k <= s.len(),
        forall|m: int| 0 <= m < k ==> p(#[trigger] s[m]),
        k == s.len() || !p(s[k]),
    ensures
        strip_start(s, p) == s.skip(k),
    decreases k,
{
    if k == 0 {
        assert(s.skip(0) =~= s);
    } else {
        let t = s.drop_first();
        assert forall|m: int| 0 <= m < k - 1 implies p(#[trigger] t[m]) by {
            assert(t[m] == s[m + 1]);
        }
        if k - 1 < t.len() {
            assert(t[k - 1] == s[k]);
        }
        assert(p(s[0]));
        lemma_strip_start_at(t, p, k - 1);
        assert(t.skip(k - 1) =~= s.skip(k));
    }
}

proof fn lemma_strip_end_at(s: Seq<char>, p: spec_fn(char) -> bool, k: int)
    requires
        0 <= k <= s.len(),
        forall|m: int| k <= m < s.len() ==> p(#[trigger] s[m]),
        k == 0 || !p(s[k - 1]),
    ensures
        strip_end(s, p) == s.take(k),
    decreases s.len() - k,
{
    if k == s.len() {
        assert(s.take(k) =~= s);
    } else {
        let t = s.drop_last();
        assert forall|m: int| k <= m < t.len() implies p(#[trigger] t[m]) by {
            assert(t[m] == s[m]);
        }
        if k > 0 {
            assert(t[k - 1] == s[k - 1]);
        }
        assert(p(s[s.len() - 1]));
        lemma_strip_end_at(t, p, k);
        assert(t.take(k) =~= s.take(k));
    }
}

fn in_set(c: char, set: &[char]) -> (r: bool)
    ensures
        r == set@.contains(c),
{
    let mut i: usize = 0;
    while i < set.len()
        invariant
            i <= set@.len(),
            forall|m: int| 0 <= m < i ==> set@[m] != c,
        decreases set@.len() - i,
    {
        if set[i] == c {
            assert(set@[i as int] == c);
            return true;
        }
        i = i + 1;
    }
    false
}

fn copy_range(s: &[char], lo: usize, hi: usize) -> (r: Vec<char>)
    requires
        lo <= hi <= s@.len(),
    ensures
        r@ == s@.subrange(lo as int, hi as int),
{
    let mut r: Vec<char> = Vec::new();
    let mut i = lo;
    while i < hi
        invariant
            lo <= i <= hi <= s@.len(),
            r@ =~= s@.subrange(lo as int, i as int),
        decreases hi - i,
    {
        r.push(s[i]);
        i = i + 1;
    }
    r
}

/// `s` with leading and trailing white space removed.
pub fn trim_ws(s: &[char]) -> (r: Vec<char>)
    ensures
        r@ == trim(s@),
{
    let n = s.len();
    let mut lo: usize = 0;
    while lo < n && is_ws_exec(s[lo])
        invariant
            lo <= n == s@.len(),
            forall|m: int| 0 <= m < lo ==> is_ws(#[trigger] s@[m]),
        decreases n - lo,
    {
        lo = lo + 1;
    }
    let mut hi: usize = n;
    while hi > lo && is_ws_exec(s[hi - 1])
        invariant
            lo <= hi <= n == s@.len(),
            forall|m: int| hi <= m < n ==> is_ws(#[trigger] s@[m]),
        decreases hi - lo,
    {
        hi = hi - 1;
    }
    proof {
        let p = ws_pred();
        assert forall|m: int| 0 <= m < lo implies p(#[trigger] s@[m]) by {}
        lemma_strip_start_at(s@, p, lo as int);
        let t = s@.skip(lo as int);
        assert forall|m: int| hi - lo <= m < t.len() implies p(#[trigger] t[m]) by {
            assert(t[m] == s@[lo + m]);
        }
        if hi > lo {
            assert(t[hi - lo - 1] == s@[hi - 1]);
        }
        lemma_strip_end_at(t, p, hi - lo);
        assert(t.take(hi - lo) =~= s@.subrange(lo as int, hi as int));
    }
    copy_range(s, lo, hi)
}

/// `s` with the leading and trailing characters found in `set` removed.
pub fn trim_chars(s: &[char], set: &[char]) -> (r: Vec<char>)
    ensures
        r@ == trim_set(s@, set@),
{
    let n = s.len();
    let mut lo: usize = 0;
    while lo < n && in_set(s[lo], set)
        invariant
            lo <= n == s@.len(),
            forall|m: int| 0 <= m < lo ==> set@.contains(#[trigger] s@[m]),
        decreases n - lo,
    {
        lo = lo + 1;
    }
    let mut hi: usize = n;
    while hi > lo && in_set(s[hi - 1], set)
        invariant
            lo <= hi <= n == s@.len(),
            forall|m: int| hi <= m < n ==> set@.contains(#[trigger] s@[m]),
        decreases hi - lo,
    {
        hi = hi - 1;
    }
    proof {
        let p = set_pred(set@);
        assert forall|m: int| 0 <= m < lo implies p(#[trigger] s@[m]) by {}
        lemma_strip_start_at(s@, p, lo as int);
        let t = s@.skip(lo as int);
        assert forall|m: int| hi - lo <= m < t.len() implies p(#[trigger] t[m]) by {
            assert(t[m] == s@[lo + m]);
        }
        if hi > lo {
            assert(t[hi - lo - 1] == s@[hi - 1]);
        }
        lemma_strip_end_at(t, p, hi - lo);
        assert(t.take(hi - lo) =~= s@.subrange(lo as int, hi as int));
    }
    copy_range(s, lo, hi)
}

/// `s` with the leading characters found in `set` removed.
pub fn trim_start_chars(s: &[char], set: &[char]) -> (r: Vec<char>)
    ensures
        r@ == strip_start(s@, set_pred(set@)),
{
    let n = s.len();
    let mut lo: usize = 0;
    while lo < n && in_set(s[lo], set)
        invariant
            lo <= n == s@.len(),
            forall|m: int| 0 <= m < lo ==> set@.contains(#[trigger] s@[m]),
        decreases n - lo,
    {
        lo = lo + 1;
    }
    proof {
        let p = set_pred(set@);
        assert forall|m: int| 0 <= m < lo implies p(#[trigger] s@[m]) by {}
        lemma_strip_start_at(s@, p, lo as int);
        assert(s@.skip(lo as int) =~= s@.subrange(lo as int, n as int));
    }
    copy_range(s, lo, n)
}

/// `p` is a prefix of `s`.
pub fn has_prefix(s: &[char], p: &[char]) -> (r: bool)
    ensures
        r == p@.is_prefix_of(s@),
{
    if p.len() > s.len() {
        return false;
    }
    let mut i: usize = 0;
    while i < p.len()
        invariant
            i <= p@.len() <= s@.len(),
            forall|m: int| 0 <= m < i ==> p@[m] == s@[m],
        decreases p@.len() - i,
    {
        if p[i] != s[i] {
            return false;
        }
        i = i + 1;
    }
    true
}

/// `p` is a suffix of `s`.
pub fn has_suffix(s: &[char], p: &[char]) -> (r: bool)
    ensures
        r == p@.is_suffix_of(s@),
{
    if p.len() > s.len() {
        return false;
    }
    let off = s.len() - p.len();
    let mut i: usize = 0;
    while i < p.len()
        invariant
            i <= p@.len() <= s@.len(),
            off == s@.len() - p@.len(),
            s@.len() <= usize::MAX,
            forall|m: int| 0 <= m < i ==> p@[m] == s@[off + m],
        decreases p@.len() - i,
    {
        assert(off + i < s@.len());
        if p[i] != s[off + i] {
            return false;
        }
        i = i + 1;
    }
    true
}

/// `p` occurs in `s` starting at position `i`.
pub open spec fn occurs_at(s: Seq<char>, p: Seq<char>, i: int) -> bool {
    0 <= i && i + p.len() <= s.len() && s.subrange(i, i + p.len()) == p
}

/// `p` occurs somewhere in `s`, as `str::contains` tells.
pub open spec fn contains_text(s: Seq<char>, p: Seq<char>) -> bool {
    exists|i: int| occurs_at(s, p, i)
}

fn matches_at(s: &[char], p: &[char], i: usize) -> (r: bool)
    requires
        i + p@.len() <= s@.len(),
    ensures
        r == occurs_at(s@, p@, i as int),
{
    let _sl = s.len();
    let mut k: usize = 0;
    while k < p.len()
        invariant
            k <= p@.len(),
            s@.len() <= usize::MAX,
            i + p@.len() <= s@.len(),
            forall|m: int| 0 <= m < k ==> p@[m] == s@[i + m],
        decreases p@.len() - k,
    {
        assert(i + k < s@.len());
        if p[k] != s[i + k] {
            proof {
                assert(s@.subrange(i as int, i + p@.len())[k as int] != p@[k as int]);
            }
            return false;
        }
        k = k + 1;
    }
    proof {
        assert(s@.subrange(i as int, i + p@.len()) =~= p@);
    }
    true
}

/// The first position at or after `from` where `p` occurs in `s`, if any.
pub open spec fn find_from(s: Seq<char>, p: Seq<char>, from: int) -> Option<int>
    decreases s.len() + 1 - from,
{
    if from < 0 || from + p.len() > s.len() {
        None
    } else if occurs_at(s, p, from) {
        Some(from)
    } else {
        find_from(s, p, from + 1)
    }
}

/// `find_from` gives the first occurrence at or after `from`, and `None` only when there is none.
pub proof fn lemma_find_from(s: Seq<char>, p: Seq<char>, from: int)
    requires
        0 <= from,
    ensures
        find_from(s, p, from) matches Some(i) ==> from <= i && occurs_at(s, p, i)
            && forall|k: int| from <= k < i ==> !occurs_at(s, p, k),
        find_from(s, p, from) is None ==> forall|k: int| from <= k ==> !occurs_at(s, p, k),
    decreases s.len() + 1 - from,
{
    if from + p.len() <= s.len() && !occurs_at(s, p, from) {
        lemma_find_from(s, p, from + 1);
    }
}

/// The first position at or after `from` where `p` occurs in `s`.
pub fn find_text(s: &[char], p: &[char], from: usize) -> (r: Option<usize>)
    ensures
        r matches Some(i) ==> find_from(s@, p@, from as int) == Some(i as int),
        r is None ==> find_from(s@, p@, from as int) is None,
{
    if p.len() > s.len() || from > s.len() - p.len() {
        return None;
    }
    let last = s.len() - p.len();
    let mut i = from;
    while i <= last
        invariant
            from <= i,
            last == s@.len() - p@.len(),
            find_from(s@, p@, from as int) == find_from(s@, p@, i as int),
        decreases last - i,
    {
        if matches_at(s, p, i) {
            return Some(i);
        }
        if i == last {
            proof {
                assert(find_from(s@, p@, i as int + 1) is None);
            }
            return None;
        }
        i = i + 1;
    }
    None
}

/// Whether `p` occurs in `s`.
pub fn contains_chars(s: &[char], p: &[char]) -> (r: bool)
    ensures
        r == contains_text(s@, p@),
{
    let r = find_text(s, p, 0);
    proof {
        lemma_find_from(s@, p@, 0);
        if let Some(i) = r {
            assert(occurs_at(s@, p@, i as int));
        }
    }
    r.is_some()
}

/// `s` with every trailing copy of `p` removed, as `trim_end_matches` with a text pattern returns it.
pub open spec fn strip_suffix_rep(s: Seq<char>, p: Seq<char>) -> Seq<char>
    decreases s.len(),
{
    if p.len() > 0 && p.is_suffix_of(s) { strip_suffix_rep(s.take(s.len() - p.len()), p) } else { s }
}

/// `s` with every trailing copy of `p` removed.
pub fn trim_end_text(s: &[char], p: &[char]) -> (r: Vec<char>)
    ensures
        r@ == strip_suffix_rep(s@, p@),
{
    let mut hi: usize = s.len();
    if p.len() == 0 {
        return copy_range(s, 0, hi);
    }
    let mut cur: Vec<char> = copy_range(s, 0, hi);
    proof {
        assert(cur@ =~= s@);
    }
    while cur.len() >= p.len() && has_suffix(cur.as_slice(), p)
        invariant
            p@.len() > 0,
            strip_suffix_rep(s@, p@) == strip_suffix_rep(cur@, p@),
        decreases cur@.len(),
    {
        let n = cur.len() - p.len();
        let next = copy_range(cur.as_slice(), 0, n);
        proof {
            assert(next@ =~= cur@.take(cur@.len() - p@.len()));
        }
        cur = next;
    }
    proof {
        assert(s@.subrange(0, s@.len() as int) =~= s@);
    }
    cur
}

/// Whether `c` is a decimal digit.
pub open spec fn is_digit(c: char) -> bool {
    '0' <= c && c <= '9'
}

/// The value of a decimal digit.
pub open spec fn digit_value(c: char) -> nat {
    ((c as u32) - ('0' as u32)) as nat
}

/// Every character of `t` is a decimal digit.
pub open spec fn all_digits(t: Seq<char>) -> bool {
    forall|i: int| 0 <= i < t.len() ==> is_digit(#[trigger] t[i])
}

/// The value of a string of decimal digits (0 for the empty string).
pub open spec fn digits_value(t: Seq<char>) -> nat
    decreases t.len(),
{
    if t.len() == 0 { 0 } else { digits_value(t.drop_last()) * 10 + digit_value(t.last()) }
}

/// `t` without one leading `+`.
pub open spec fn drop_plus(t: Seq<char>) -> Seq<char> {
    if t.len() > 0 && t[0] == '+' { t.drop_first() } else { t }
}

/// What `str::parse::<u8>` gives for `t`: an optional `+`, then at least one decimal digit,
/// with a value of at most 255.
pub open spec fn parse_u8_spec(t: Seq<char>) -> Option<u8> {
    let d = drop_plus(t);
    if d.len() > 0 && all_digits(d) && digits_value(d) <= 255 { Some(digits_value(d) as u8) } else { None }
}

/// Parses a decimal `u8` the way `str::parse::<u8>` does.
pub fn parse_u8(t: &[char]) -> (r: Option<u8>)
    ensures
        r == parse_u8_spec(t@),
{
    let n = t.len();
    let start: usize = if n > 0 && t[0] == '+' { 1 } else { 0 };
    let ghost d = drop_plus(t@);
    proof {
        if start == 1 {
            assert(d =~= t@.subrange(1, n as int));
        } else {
            assert(d =~= t@.subrange(0, n as int));
        }
    }
    if start == n {
        return None;
    }
    let mut v: u64 = 0;
    let mut i = start;
    while i < n
        invariant
            start <= i <= n == t@.len(),
            d == t@.subrange(start as int, n as int),
            d == drop_plus(t@),
            forall|m: int| start <= m < i ==> is_digit(#[trigger] t@[m]),
            v == (if digits_value(t@.subrange(start as int, i as int)) > 255 { 256 } else { digits_value(t@.subrange(start as int, i as int)) }),
        decreases n - i,
    {
        let c = t[i];
        if !('0' <= c && c <= '9') {
            proof {
                assert(d[i - start] == c);
                assert(!is_digit(d[i - start]));
            }
            return None;
        }
        let dv = (c as u32 - '0' as u32) as u64;
        proof {
            let pre = t@.subrange(start as int, i as int);
            let post = t@.subrange(start as int, i as int + 1);
            assert(post.drop_last() =~= pre);
            assert(post.last() == c);
            assert(digits_value(post) == digits_value(pre) * 10 + dv);
        }
        v = if v > 255 { 256 } else if v * 10 + dv > 255 { 256 } else { v * 10 + dv };
        i = i + 1;
    }
    proof {
        assert forall|m: int| 0 <= m < d.len() implies is_digit(#[trigger] d[m]) by {
            assert(d[m] == t@[start + m]);
        }
    }
    if v > 255 { None } else { Some(v as u8) }
}

} // verus!

verus! {

/// Index of the first `c` in `s`, or the length of `s` when there is none.
pub open spec fn char_pos(s: Seq<char>, c: char) -> nat
    decreases s.len(),
{
    if s.len() == 0 || s[0] == c { 0 } else { 1 + char_pos(s.drop_first(), c) }
}

/// The first occurrence of `c` lies within the text, and `c` does not stand before it.
pub proof fn lemma_char_pos_bound(s: Seq<char>, c: char)
    ensures
        char_pos(s, c) <= s.len(),
        char_pos(s, c) < s.len() ==> s[char_pos(s, c) as int] == c,
        forall|m: int| 0 <= m < char_pos(s, c) ==> #[trigger] s[m] != c,
    decreases s.len(),
{
    if s.len() > 0 && s[0] != c {
        lemma_char_pos_bound(s.drop_first(), c);
        assert forall|m: int| 0 <= m < char_pos(s, c) implies #[trigger] s[m] != c by {
            if m > 0 {
                assert(s[m] == s.drop_first()[m - 1]);
            }
        }
    }
}

/// A position holding `c` (or the end) with no `c` before it is the first occurrence of `c`.
pub proof fn lemma_char_pos_exact(s: Seq<char>, c: char, k: int)
    requires
        0 <= k <= s.len(),
        forall|m: int| 0 <= m < k ==> #[trigger] s[m] != c,
        k == s.len() || s[k] == c,
    ensures
        char_pos(s, c) == k,
    decreases k,
{
    if k > 0 {
        let t = s.drop_first();
        assert forall|m: int| 0 <= m < k - 1 implies #[trigger] t[m] != c by {
            assert(t[m] == s[m + 1]);
        }
        if k - 1 < t.len() {
            assert(t[k - 1] == s[k]);
        }
        lemma_char_pos_exact(t, c, k - 1);
    }
}

/// The pieces of `s` between occurrences of `c`, as `str::split` with a character yields them.
pub open spec fn split_char(s: Seq<char>, c: char) -> Seq<Seq<char>>
    decreases s.len(),
{
    let k = char_pos(s, c);
    proof {
        lemma_char_pos_bound(s, c);
    }
    if k < s.len() {
        seq![s.take(k as int)] + split_char(s.skip(k as int + 1), c)
    } else {
        seq![s]
    }
}

/// The pieces of `s` between occurrences of `c`.
pub fn split_on(s: &[char], c: char) -> (r: Vec<Vec<char>>)
    ensures
        vecs_view(r@) == split_char(s@, c),
{
    let n = s.len();
    let mut out: Vec<Vec<char>> = Vec::new();
    let mut i: usize = 0;
    proof {
        assert(s@.skip(0) =~= s@);
        assert(vecs_view(out@) =~= Seq::<Seq<char>>::empty());
    }
    loop
        invariant
            n == s@.len(),
            i <= n,
            split_char(s@, c) == vecs_view(out@) + split_char(s@.skip(i as int), c),
        decreases n - i,
    {
        let ghost rest = s@.skip(i as int);
        let start = i;
        let mut piece: Vec<char> = Vec::new();
        while i < n && s[i] != c
            invariant
                n == s@.len(),
                start <= i <= n,
                piece@ =~= s@.subrange(start as int, i as int),
                forall|m: int| start <= m < i ==> #[trigger] s@[m] != c,
            decreases n - i,
        {
            piece.push(s[i]);
            i = i + 1;
        }
        proof {
            assert forall|m: int| 0 <= m < i - start implies #[trigger] rest[m] != c by {
                assert(rest[m] == s@[start + m]);
            }
            if i < n {
                assert(rest[i - start] == s@[i as int]);
            }
            lemma_char_pos_exact(rest, c, i - start);
        }
        let ghost ov = vecs_view(out@);
        if i < n {
            proof {
                assert(rest.take(i - start) =~= piece@);
                assert(rest.skip(i - start + 1) =~= s@.skip(i as int + 1));
                assert(split_char(rest, c) == seq![piece@] + split_char(s@.skip(i as int + 1), c));
                assert(vecs_view(out@.push(piece)) =~= ov.push(piece@));
                assert(ov + split_char(rest, c) =~= ov.push(piece@) + split_char(s@.skip(i as int + 1), c));
            }
            out.push(piece);
            i = i + 1;
        } else {
            proof {
                assert(rest =~= piece@);
                assert(split_char(rest, c) == seq![piece@]);
                assert(vecs_view(out@.push(piece)) =~= ov.push(piece@));
                assert(ov + split_char(rest, c) =~= vecs_view(out@.push(piece)));
            }
            out.push(piece);
            return out;
        }
    }
}

/// Ten to the power `k`.
pub open spec fn pow10(k: nat) -> nat
    decreases k,
{
    if k == 0 { 1 } else { 10 * pow10((k - 1) as nat) }
}

/// The position of the first `e` or `E` of `d` (its length when there is none).
pub open spec fn exp_pos(d: Seq<char>) -> nat {
    let i = char_pos(d, 'e');
    let j = char_pos(d, 'E');
    if i <= j { i } else { j }
}

/// The whole-number part of a decimal token (before the first `.`).
pub open spec fn int_part(d: Seq<char>) -> Seq<char> {
    d.take(char_pos(d, '.') as int)
}

/// The fraction part of a decimal token (after the first `.`; empty without one).
pub open spec fn frac_part(d: Seq<char>) -> Seq<char> {
    if char_pos(d, '.') < d.len() { d.skip(char_pos(d, '.') as int + 1) } else { Seq::empty() }
}

/// The value of an exponent written after `e`: an optional sign and at least one digit.
pub open spec fn exponent_value(x: Seq<char>) -> Option<int> {
    let neg = x.len() > 0 && x[0] == '-';
    let xd = if x.len() > 0 && (x[0] == '+' || x[0] == '-') { x.drop_first() } else { x };
    if xd.len() == 0 || !all_digits(xd) {
        None
    } else if neg {
        Some(-(digits_value(xd) as int))
    } else {
        Some(digits_value(xd) as int)
    }
}

/// The whole part of the digit string `digs` read as an integer and multiplied by ten to
/// the power `k` (a negative `k` drops the last `-k` digits).
pub open spec fn shifted_value(digs: Seq<char>, k: int) -> nat {
    if k >= 0 {
        digits_value(digs) * pow10(k as nat)
    } else if digs.len() + k > 0 {
        digits_value(digs.take(digs.len() + k))
    } else {
        0
    }
}

/// A latency token in milliseconds read as whole microseconds. The token is a decimal
/// number as `f64` parsing writes one without a minus sign: an optional `+`, digits with
/// at most one `.` and at least one digit, then optionally `e` or `E`, an optional sign
/// and at least one digit. The fraction of a microsecond is dropped. Other tokens (a
/// minus sign, `inf`, `NaN`) and values beyond `u64` give `None`.
pub open spec fn latency_us_spec(t: Seq<char>) -> Option<u64> {
    let d = drop_plus(t);
    let p = exp_pos(d);
    let m = d.take(p as int);
    let a = int_part(m);
    let b = frac_part(m);
    let e = if p < d.len() { exponent_value(d.skip(p as int + 1)) } else { Some(0int) };
    if a.len() + b.len() == 0 || !all_digits(a) || !all_digits(b) || e is None {
        None
    } else {
        let v = shifted_value(a + b, e.unwrap() + 3 - b.len());
        if v > u64::MAX { None } else { Some(v as u64) }
    }
}

proof fn lemma_cap_step(x: nat, d: nat, c: nat)
    requires
        d < 10,
        c >= 10,
    ensures
        ({ let m = if x > c { c } else { x }; if m * 10 + d > c { c } else { m * 10 + d } })
            == (if x * 10 + d > c { c } else { x * 10 + d }),
{
    if x > c {
        assert(x * 10 + d > c) by (nonlinear_arith) requires x > c, c >= 10;
        assert(c * 10 + d > c) by (nonlinear_arith) requires c >= 10;
    }
}

/// The value of an all-digit run of `t` from `lo` to `hi`, capped at `cap`, or `None`
/// when a character there is not a digit.
fn digits_capped(t: &[char], lo: usize, hi: usize, cap: u128) -> (r: Option<u128>)
    requires
        lo <= hi <= t@.len(),
        10 <= cap <= 0x1_0000_0000_0000_0000_0000_0000,
    ensures
        r is None <==> !all_digits(t@.subrange(lo as int, hi as int)),
        r matches Some(v) ==> v == (if digits_value(t@.subrange(lo as int, hi as int)) > cap { cap as nat } else { digits_value(t@.subrange(lo as int, hi as int)) }),
{
    let mut v: u128 = 0;
    let mut i = lo;
    while i < hi
        invariant
            lo <= i <= hi <= t@.len(),
            10 <= cap <= 0x1_0000_0000_0000_0000_0000_0000,
            forall|m: int| lo <= m < i ==> is_digit(#[trigger] t@[m]),
            v == (if digits_value(t@.subrange(lo as int, i as int)) > cap { cap as nat } else { digits_value(t@.subrange(lo as int, i as int)) }),
        decreases hi - i,
    {
        let c = t[i];
        if !('0' <= c && c <= '9') {
            proof {
                let s = t@.subrange(lo as int, hi as int);
                assert(s[i - lo] == c);
                assert(!is_digit(s[i - lo]));
            }
            return None;
        }
        let dv = (c as u32 - '0' as u32) as u128;
        proof {
            let pre = t@.subrange(lo as int, i as int);
            let post = t@.subrange(lo as int, i as int + 1);
            assert(post.drop_last() =~= pre);
            assert(post.last() == c);
            assert(digits_value(post) == digits_value(pre) * 10 + dv);
            lemma_cap_step(digits_value(pre), dv as nat, cap as nat);
        }
        v = if v * 10 + dv > cap { cap } else { v * 10 + dv };
        i = i + 1;
    }
    proof {
        let s = t@.subrange(lo as int, hi as int);
        assert forall|m: int| 0 <= m < s.len() implies is_digit(#[trigger] s[m]) by {
            assert(s[m] == t@[lo + m]);
        }
    }
    Some(v)
}

proof fn lemma_exp_pos_exact(d: Seq<char>, p: int)
    requires
        0 <= p <= d.len(),
        forall|m: int| 0 <= m < p ==> #[trigger] d[m] != 'e' && d[m] != 'E',
        p == d.len() || d[p] == 'e' || d[p] == 'E',
    ensures
        exp_pos(d) == p,
{
    lemma_char_pos_bound(d, 'e');
    lemma_char_pos_bound(d, 'E');
    if p == d.len() {
        lemma_char_pos_exact(d, 'e', p);
        lemma_char_pos_exact(d, 'E', p);
    } else if d[p] == 'e' {
        lemma_char_pos_exact(d, 'e', p);
        if char_pos(d, 'E') < p {
            assert(d[char_pos(d, 'E') as int] == 'E');
        }
    } else {
        lemma_char_pos_exact(d, 'E', p);
        if char_pos(d, 'e') < p {
            assert(d[char_pos(d, 'e') as int] == 'e');
        }
    }
}

proof fn lemma_pow10_mono(i: nat, j: nat)
    requires
        i <= j,
    ensures
        1 <= pow10(i) <= pow10(j),
    decreases j,
{
    if j > i {
        lemma_pow10_mono(i, (j - 1) as nat);
    } else if i > 0 {
        lemma_pow10_mono((i - 1) as nat, (i - 1) as nat);
    }
}

proof fn lemma_pow10_values()
    ensures
        pow10(18) == 1_000_000_000_000_000_000,
        pow10(19) == 10_000_000_000_000_000_000,
        pow10(20) == 100_000_000_000_000_000_000,
{
    reveal_with_fuel(pow10, 21);
}

fn pow10_exec(k: u32) -> (p: u128)
    requires
        k <= 19,
    ensures
        p == pow10(k as nat),
        1 <= p <= 10_000_000_000_000_000_000,
{
    let mut p: u128 = 1;
    let mut i: u32 = 0;
    proof {
        lemma_pow10_values();
    }
    while i < k
        invariant
            i <= k <= 19,
            p == pow10(i as nat),
            pow10(18) == 1_000_000_000_000_000_000,
        decreases k - i,
    {
        proof {
            lemma_pow10_mono(i as nat, 18);
        }
        p = p * 10;
        i = i + 1;
    }
    proof {
        lemma_pow10_mono(k as nat, 19);
        lemma_pow10_values();
    }
    p
}

/// The value of `digs` shifted by `k` decimal places, when it fits in `u64`.
pub open spec fn scaled_opt(digs: Seq<char>, k: int) -> Option<u64> {
    let v = shifted_value(digs, k);
    if v > u64::MAX { None } else { Some(v as u64) }
}

/// Shifts the digit string by the exponent `mag` (negative when `neg`) plus three places
/// less the `blen` fraction digits; `ev` is `mag` capped at `cap_e`, which is far enough
/// past the length of `digs` for the cap not to change the result.
#[verifier::spinoff_prover]
fn scale_digits(digs: &[char], neg: bool, ev: u128, blen: usize, Ghost(mag): Ghost<nat>, cap_e: u128) -> (r: Option<u64>)
    requires
        all_digits(digs@),
        blen <= digs@.len(),
        digs@.len() + 40 <= cap_e <= 0x1_0000_0000_0000_0000_0000,
        ev == (if mag > cap_e { cap_e as nat } else { mag }),
    ensures
        r == scaled_opt(digs@, (if neg { -(mag as int) } else { mag as int }) + 3 - blen),
{
    let ghost dd = digs@;
    let ghost ktrue: int = (if neg { -(mag as int) } else { mag as int }) + 3 - blen;
    let dlen = digs.len();
    let kk: i128 = (if neg { -(ev as i128) } else { ev as i128 }) + 3 - (blen as i128);
    let cap: u128 = 0x1_0000_0000_0000_0000;
    proof {
        lemma_pow10_values();
    }
    if kk >= 0 {
        let v = match digits_capped(digs, 0, dlen, cap) {
            Some(v) => v,
            None => {
                return None;
            },
        };
        let ghost dv = digits_value(dd);
        proof {
            assert(digs@.subrange(0, dlen as int) =~= dd);
            assert(mag <= cap_e ==> kk == ktrue);
            assert(ktrue >= kk);
        }
        if v == 0 {
            proof {
                assert(dv == 0);
                let pw = pow10(ktrue as nat);
                assert(dv * pw == 0) by (nonlinear_arith) requires dv == 0;
            }
            return Some(0);
        }
        if kk > 19 {
            proof {
                lemma_pow10_mono(20, ktrue as nat);
                let pw = pow10(ktrue as nat);
                assert(dv * pw >= pw) by (nonlinear_arith) requires dv >= 1, pw >= 0;
            }
            return None;
        }
        let p = pow10_exec(kk as u32);
        proof {
            assert(kk == ktrue);
            assert(v * p <= 0x1_0000_0000_0000_0000 * 10_000_000_000_000_000_000) by (nonlinear_arith)
                requires v <= 0x1_0000_0000_0000_0000, p <= 10_000_000_000_000_000_000;
            if dv > cap {
                assert(v * p >= v) by (nonlinear_arith) requires p >= 1, v >= 0;
                assert(dv * p >= dv) by (nonlinear_arith) requires p >= 1, dv >= 0;
            }
        }
        let prod = v * p;
        if prod > 0xFFFF_FFFF_FFFF_FFFF {
            None
        } else {
            Some(prod as u64)
        }
    } else {
        let j = -kk;
        let take: usize = if (dlen as i128) > j { (dlen as i128 - j) as usize } else { 0 };
        let v = match digits_capped(digs, 0, take, cap) {
            Some(v) => v,
            None => {
                return None;
            },
        };
        proof {
            assert(digs@.subrange(0, take as int) =~= dd.take(take as int));
            if mag > cap_e {
                assert(take == 0);
                assert(dd.len() + ktrue <= 0);
                assert(dd.take(0) =~= Seq::<char>::empty());
            } else {
                assert(kk == ktrue);
                if take == 0 {
                    assert(dd.take(0) =~= Seq::<char>::empty());
                }
            }
        }
        if v > 0xFFFF_FFFF_FFFF_FFFF {
            None
        } else {
            Some(v as u64)
        }
    }
}

/// Reads the exponent written in `t` from `xs0` on (see `exponent_value`): its sign, and
/// its magnitude capped at `cap_e`.
fn read_exponent(t: &[char], xs0: usize, cap_e: u128) -> (r: Option<(bool, u128)>)
    requires
        xs0 <= t@.len(),
        10 <= cap_e <= 0x1_0000_0000_0000_0000_0000,
    ensures
        ({
            let x = t@.subrange(xs0 as int, t@.len() as int);
            match r {
                None => exponent_value(x) is None,
                Some((neg, ev)) => exponent_value(x) matches Some(e) && (neg <==> e < 0)
                    && ev == (if (if neg { -e } else { e }) > cap_e { cap_e as int } else { if neg { -e } else { e } }),
            }
        }),
{
    let n = t.len();
    let ghost x = t@.subrange(xs0 as int, n as int);
    let neg = xs0 < n && t[xs0] == '-';
    let signed = xs0 < n && (t[xs0] == '+' || t[xs0] == '-');
    let xs = if signed { xs0 + 1 } else { xs0 };
    let ghost xd = if x.len() > 0 && (x[0] == '+' || x[0] == '-') { x.drop_first() } else { x };
    proof {
        if xs0 < n {
            assert(x[0] == t@[xs0 as int]);
        }
        assert(xd =~= t@.subrange(xs as int, n as int));
    }
    if xs >= n {
        return None;
    }
    match digits_capped(t, xs, n, cap_e) {
        None => None,
        Some(v) => Some((neg && v > 0, v)),
    }
}

/// The characters of `t` from `lo1` to `hi1` followed by those from `lo2` to `hi2`.
fn two_ranges(t: &[char], lo1: usize, hi1: usize, lo2: usize, hi2: usize) -> (r: Vec<char>)
    requires
        lo1 <= hi1 <= t@.len(),
        lo2 <= hi2 <= t@.len(),
    ensures
        r@ == t@.subrange(lo1 as int, hi1 as int) + t@.subrange(lo2 as int, hi2 as int),
{
    let mut digs: Vec<char> = Vec::new();
    let mut i = lo1;
    while i < hi1
        invariant
            lo1 <= i <= hi1 <= t@.len(),
            digs@ == t@.subrange(lo1 as int, i as int),
        decreases hi1 - i,
    {
        digs.push(t[i]);
        i = i + 1;
        proof {
            assert(digs@ =~= t@.subrange(lo1 as int, i as int));
        }
    }
    let mut i = lo2;
    proof {
        assert(digs@ =~= t@.subrange(lo1 as int, hi1 as int) + t@.subrange(lo2 as int, lo2 as int));
    }
    while i < hi2
        invariant
            lo2 <= i <= hi2 <= t@.len(),
            lo1 <= hi1 <= t@.len(),
            digs@ == t@.subrange(lo1 as int, hi1 as int) + t@.subrange(lo2 as int, i as int),
        decreases hi2 - i,
    {
        digs.push(t[i]);
        i = i + 1;
        proof {
            assert(digs@ =~= t@.subrange(lo1 as int, hi1 as int) + t@.subrange(lo2 as int, i as int));
        }
    }
    digs
}

/// The first `e` or `E` of `t` from `start` on (the end when there is none).
fn find_exp_marker(t: &[char], start: usize) -> (ep: usize)
    requires
        start <= t@.len(),
    ensures
        start <= ep <= t@.len(),
        exp_pos(t@.subrange(start as int, t@.len() as int)) == ep - start,
{
    let n = t.len();
    let ghost d = t@.subrange(start as int, n as int);
    let mut ep = start;
    while ep < n && t[ep] != 'e' && t[ep] != 'E'
        invariant
            start <= ep <= n == t@.len(),
            forall|m: int| start <= m < ep ==> #[trigger] t@[m] != 'e' && t@[m] != 'E',
        decreases n - ep,
    {
        ep = ep + 1;
    }
    proof {
        assert forall|m: int| 0 <= m < ep - start implies #[trigger] d[m] != 'e' && d[m] != 'E' by {
            assert(d[m] == t@[start + m]);
        }
        if ep < n {
            assert(d[ep - start] == t@[ep as int]);
        }
        lemma_exp_pos_exact(d, ep - start);
    }
    ep
}

/// The first `.` of `t` between `start` and `ep` (`ep` when there is none), which splits
/// the number written there into its whole and fraction parts.
fn find_dot(t: &[char], start: usize, ep: usize) -> (k: usize)
    requires
        start <= ep <= t@.len(),
    ensures
        start <= k <= ep,
        int_part(t@.subrange(start as int, ep as int)) == t@.subrange(start as int, k as int),
        frac_part(t@.subrange(start as int, ep as int)) == t@.subrange(if k < ep { k + 1 } else { ep as int }, ep as int),
{
    let ghost m = t@.subrange(start as int, ep as int);
    let mut k = start;
    while k < ep && t[k] != '.'
        invariant
            start <= k <= ep <= t@.len(),
            forall|j: int| start <= j < k ==> #[trigger] t@[j] != '.',
        decreases ep - k,
    {
        k = k + 1;
    }
    proof {
        assert forall|j: int| 0 <= j < k - start implies #[trigger] m[j] != '.' by {
            assert(m[j] == t@[start + j]);
        }
        if k < ep {
            assert(m[k - start] == t@[k as int]);
        }
        lemma_char_pos_exact(m, '.', k - start);
        assert(int_part(m) =~= t@.subrange(start as int, k as int));
        if k < ep {
            assert(frac_part(m) =~= t@.subrange(k as int + 1, ep as int));
        } else {
            assert(frac_part(m) =~= t@.subrange(ep as int, ep as int));
        }
    }
    k
}

/// Reads a latency token in milliseconds as whole microseconds (see `latency_us_spec`).
#[verifier::spinoff_prover]
pub fn parse_latency_us(t: &[char]) -> (r: Option<u64>)
    ensures
        r == latency_us_spec(t@),
{
    let n = t.len();
    let start: usize = if n > 0 && t[0] == '+' { 1 } else { 0 };
    let ghost d = drop_plus(t@);
    proof {
        if start == 1 {
            assert(d =~= t@.subrange(1, n as int));
        } else {
            assert(d =~= t@.subrange(0, n as int));
        }
    }
    let ep = find_exp_marker(t, start);
    let ghost m = d.take(ep - start);
    proof {
        assert(m =~= t@.subrange(start as int, ep as int));
    }
    let k = find_dot(t, start, ep);
    let frac_lo: usize = if k < ep { k + 1 } else { ep };
    let ghost a = int_part(m);
    let ghost b = frac_part(m);
    if (k - start) + (ep - frac_lo) == 0 {
        return None;
    }
    if digits_capped(t, start, k, 10).is_none() || digits_capped(t, frac_lo, ep, 10).is_none() {
        return None;
    }
    let cap_e: u128 = n as u128 + 40;
    let (neg, ev) = if ep < n {
        proof {
            assert(d.skip(ep - start + 1) =~= t@.subrange(ep as int + 1, n as int));
        }
        match read_exponent(t, ep + 1, cap_e) {
            None => {
                return None;
            },
            Some(x) => x,
        }
    } else {
        (false, 0)
    };
    let ghost e: int = if ep < n { exponent_value(d.skip(ep - start + 1)).unwrap() } else { 0 };
    let ghost mag: nat = (if e < 0 { -e } else { e }) as nat;
    let digs = two_ranges(t, start, k, frac_lo, ep);
    proof {
        assert(digs@ == a + b);
        assert forall|j: int| 0 <= j < digs@.len() implies is_digit(#[trigger] digs@[j]) by {
            if j < a.len() {
                assert(digs@[j] == a[j]);
            } else {
                assert(digs@[j] == b[j - a.len()]);
            }
        }
        assert(e == (if neg { -(mag as int) } else { mag as int }));
    }
    let r = scale_digits(digs.as_slice(), neg, ev, ep - frac_lo, Ghost(mag), cap_e);
    r
}

} // verus!

verus! {

/// Whether `a` and `b` hold the same characters.
pub fn same_chars(a: &[char], b: &[char]) -> (r: bool)
    ensures
        r == (a@ == b@),
{
    if a.len() != b.len() {
        return false;
    }
    let mut i: usize = 0;
    while i < a.len()
        invariant
            i <= a@.len() == b@.len(),
            forall|m: int| 0 <= m < i ==> a@[m] == b@[m],
        decreases a@.len() - i,
    {
        if a[i] != b[i] {
            return false;
        }
        i = i + 1;
    }
    proof {
        assert(a@ =~= b@);
    }
    true
}

/// Whether `t` holds the characters of `lit`.
pub fn is_text(t: &[char], lit: &str) -> (r: bool)
    ensures
        r == (t@ == lit@),
{
    let l = crate::text::chars_of(lit);
    same_chars(t, l.as_slice())
}

/// Whether `t` ends with the characters of `lit`.
pub fn ends_with_text(t: &[char], lit: &str) -> (r: bool)
    ensures
        r == lit@.is_suffix_of(t@),
{
    let l = crate::text::chars_of(lit);
    has_suffix(t, l.as_slice())
}

/// Whether `t` starts with the characters of `lit`.
pub fn starts_with_text(t: &[char], lit: &str) -> (r: bool)
    ensures
        r == lit@.is_prefix_of(t@),
{
    let l = crate::text::chars_of(lit);
    has_prefix(t, l.as_slice())
}

/// Whether `lit` occurs in `t`.
pub fn contains_lit(t: &[char], lit: &str) -> (r: bool)
    ensures
        r == contains_text(t@, lit@),
{
    let l = crate::text::chars_of(lit);
    contains_chars(t, l.as_slice())
}

} // verus!

verus! {

proof fn lemma_token_len_push_ws(s: Seq<char>, c: char)
    requires
        is_ws(c),
    ensures
        token_len(s.push(c)) == token_len(s),
    decreases s.len(),
{
    let u = s.push(c);
    if s.len() > 0 && !is_ws(s[0]) {
        assert(u.drop_first() =~= s.drop_first().push(c));
        lemma_token_len_push_ws(s.drop_first(), c);
    } else if s.len() > 0 {
        assert(u[0] == s[0]);
    }
}

proof fn lemma_words_push_ws(s: Seq<char>, c: char)
    requires
        is_ws(c),
    ensures
        words(s.push(c)) == words(s),
    decreases s.len(),
{
    let u = s.push(c);
    if s.len() == 0 {
        assert(u.drop_first() =~= Seq::<char>::empty());
        assert(words(u.drop_first()) == Seq::<Seq<char>>::empty());
    } else if is_ws(s[0]) {
        assert(u[0] == s[0]);
        assert(u.drop_first() =~= s.drop_first().push(c));
        lemma_words_push_ws(s.drop_first(), c);
    } else {
        assert(u[0] == s[0]);
        lemma_token_len_push_ws(s, c);
        lemma_token_len_bound(s);
        let t = token_len(s) as int;
        assert(u.take(t) =~= s.take(t));
        assert(u.skip(t) =~= s.skip(t).push(c));
        lemma_words_push_ws(s.skip(t), c);
    }
}

proof fn lemma_words_strip_start(s: Seq<char>)
    ensures
        words(strip_start(s, ws_pred())) == words(s),
    decreases s.len(),
{
    if s.len() > 0 && is_ws(s[0]) {
        lemma_words_strip_start(s.drop_first());
    }
}

proof fn lemma_words_strip_end(s: Seq<char>)
    ensures
        words(strip_end(s, ws_pred())) == words(s),
    decreases s.len(),
{
    if s.len() > 0 && is_ws(s.last()) {
        lemma_words_strip_end(s.drop_last());
        assert(s.drop_last().push(s.last()) =~= s);
        lemma_words_push_ws(s.drop_last(), s.last());
    }
}

/// Trimming white space from a text leaves its words as they are.
pub proof fn lemma_words_trim(s: Seq<char>)
    ensures
        words(trim(s)) == words(s),
{
    lemma_words_strip_start(s);
    lemma_words_strip_end(strip_start(s, ws_pred()));
}

/// A text has at most as many words as characters.
pub proof fn lemma_words_len(s: Seq<char>)
    ensures
        words(s).len() <= s.len(),
    decreases s.len(),
{
    if s.len() > 0 {
        if is_ws(s[0]) {
            lemma_words_len(s.drop_first());
        } else {
            lemma_token_len_bound(s);
            lemma_words_len(s.skip(token_len(s) as int));
        }
    }
}

/// A text has at most as many lines as characters.
pub proof fn lemma_lines_len(s: Seq<char>)
    ensures
        lines(s).len() <= s.len(),
    decreases s.len(),
{
    if s.len() > 0 {
        lemma_newline_pos_bound(s);
        if newline_pos(s) < s.len() {
            lemma_lines_len(s.skip(newline_pos(s) as int + 1));
        }
    }
}

/// How many of `parts` equal `t`.
pub open spec fn count_equal(parts: Seq<Seq<char>>, t: Seq<char>) -> nat
    decreases parts.len(),
{
    if parts.len() == 0 { 0 } else { count_equal(parts.drop_last(), t) + if parts.last() == t { 1nat } else { 0nat } }
}

/// How many of `parts` hold the characters of `lit`.
pub fn count_text(parts: &Vec<Vec<char>>, lit: &str) -> (r: usize)
    ensures
        r == count_equal(vecs_view(parts@), lit@),
{
    let mut n: usize = 0;
    let mut i: usize = 0;
    while i < parts.len()
        invariant
            i <= parts@.len(),
            n <= i,
            n == count_equal(vecs_view(parts@).take(i as int), lit@),
        decreases parts@.len() - i,
    {
        let eq = is_text(parts[i].as_slice(), lit);
        proof {
            let v = vecs_view(parts@);
            assert(v.take(i as int + 1).drop_last() =~= v.take(i as int));
            assert(v.take(i as int + 1).last() == parts@[i as int]@);
        }
        if eq {
            n = n + 1;
        }
        i = i + 1;
    }
    proof {
        assert(vecs_view(parts@).take(parts@.len() as int) =~= vecs_view(parts@));
    }
    n
}

} // verus!

verus! {

/// Every line of a text is at most as long as the text.
pub proof fn lemma_lines_elem_len(s: Seq<char>)
    ensures
        forall|i: int| 0 <= i < lines(s).len() ==> #[trigger] lines(s)[i].len() <= s.len(),
    decreases s.len(),
{
    if s.len() > 0 {
        lemma_newline_pos_bound(s);
        let n = newline_pos(s);
        if n < s.len() {
            let rest = s.skip(n as int + 1);
            lemma_lines_elem_len(rest);
            assert forall|i: int| 0 <= i < lines(s).len() implies #[trigger] lines(s)[i].len() <= s.len() by {
                if i > 0 {
                    assert(lines(s)[i] == lines(rest)[i - 1]);
                }
            }
        }
    }
}

proof fn lemma_strip_start_len(s: Seq<char>, p: spec_fn(char) -> bool)
    ensures
        strip_start(s, p).len() <= s.len(),
    decreases s.len(),
{
    if s.len() > 0 && p(s[0]) {
        lemma_strip_start_len(s.drop_first(), p);
    }
}

proof fn lemma_strip_end_len(s: Seq<char>, p: spec_fn(char) -> bool)
    ensures
        strip_end(s, p).len() <= s.len(),
    decreases s.len(),
{
    if s.len() > 0 && p(s.last()) {
        lemma_strip_end_len(s.drop_last(), p);
    }
}

/// Trimming never makes a text longer.
pub proof fn lemma_trim_len(s: Seq<char>)
    ensures
        trim(s).len() <= s.len(),
{
    lemma_strip_start_len(s, ws_pred());
    lemma_strip_end_len(strip_start(s, ws_pred()), ws_pred());
}

} // verus!

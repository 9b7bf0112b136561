//! Verified building blocks for working with strings character by
//! character: equality, prefix/suffix tests, searching, trimming and
//! lexicographic comparison.

use vstd::prelude::*;

verus! {

/// Two strings hold the same characters.
pub fn str_eq(a: &str, b: &str) -> (r: bool)
    ensures
        r == (a@ == b@),
{
    let alen = a.unicode_len();
    let blen = b.unicode_len();
    if alen != blen {
        assert(a@ != b@) by {
            assert(a@.len() != b@.len());
        }
        return false;
    }
    let mut i: usize = 0;
    while i < alen
        invariant
            alen == a@.len(),
            blen == b@.len(),
            alen == blen,
            i <= alen,
            forall|j: int| 0 <= j < i ==> a@[j] == b@[j],
        decreases alen - i,
    {
        if a.get_char(i) != b.get_char(i) {
            return false;
        }
        i = i + 1;
    }
    assert(a@ =~= b@);
    true
}

/// `s` ends with `t`: the last `t.len()` characters of `s` are `t`.
pub open spec fn spec_ends_with(s: Seq<char>, t: Seq<char>) -> bool {
    s.len() >= t.len() && s.subrange(s.len() - t.len(), s.len() as int) == t
}

/// Whether `s` ends with the suffix `t`.
pub fn str_ends_with(s: &str, t: &str) -> (r: bool)
    ensures
        r == spec_ends_with(s@, t@),
{
    let slen = s.unicode_len();
    let tlen = t.unicode_len();
    if slen < tlen {
        return false;
    }
    let off: usize = slen - tlen;
    let mut i: usize = 0;
    while i < tlen
        invariant
            slen == s@.len(),
            tlen == t@.len(),
            off == slen - tlen,
            i <= tlen,
            forall|j: int| 0 <= j < i ==> s@[off + j] == t@[j],
        decreases tlen - i,
    {
        if s.get_char(off + i) != t.get_char(i) {
            assert(s@.subrange(off as int, slen as int)[i as int] != t@[i as int]);
            return false;
        }
        i = i + 1;
    }
    assert(s@.subrange(off as int, slen as int) =~= t@);
    true
}

/// The first position at or after `from` where `c` occurs in `s`, or
/// the length of `s` when it does not occur there.
pub open spec fn spec_find(s: Seq<char>, c: char, from: int) -> int
    decreases s.len() - from,
{
    if from < 0 || from >= s.len() {
        s.len() as int
    } else if s[from] == c {
        from
    } else {
        spec_find(s, c, from + 1)
    }
}

/// A position before which `c` does not occur, and which holds `c` or
/// is the end, is the first occurrence.
pub proof fn lemma_find_at(s: Seq<char>, c: char, from: int, k: int)
    requires
        0 <= from <= k <= s.len(),
        forall|j: int| from <= j < k ==> s[j] != c,
        k == s.len() || s[k] == c,
    ensures
        spec_find(s, c, from) == k,
    decreases k - from,
{
    if from < k {
        lemma_find_at(s, c, from + 1, k);
    }
}

/// Finds the first occurrence of `c` in `s` at or after `from`.
pub fn find_char(s: &str, from: usize, c: char) -> (r: Option<usize>)
    requires
        from <= s@.len(),
    ensures
        r is Some ==> from <= r->0 < s@.len() && s@[r->0 as int] == c
            && forall|k: int| from <= k < r->0 ==> s@[k] != c,
        r is None ==> forall|k: int| from <= k < s@.len() ==> s@[k] != c,
{
    let len = s.unicode_len();
    let mut i: usize = from;
    while i < len
        invariant
            len == s@.len(),
            from <= i <= len,
            forall|k: int| from <= k < i ==> s@[k] != c,
        decreases len - i,
    {
        if s.get_char(i) == c {
            return Some(i);
        }
        i = i + 1;
    }
    None
}

/// `t` occurs in `s` as a contiguous run of characters.
pub open spec fn spec_contains(s: Seq<char>, t: Seq<char>) -> bool {
    exists|i: int|
        0 <= i && i + t.len() <= s.len() && #[trigger] s.subrange(i, i + t.len()) == t
}

/// Whether the string `t` occurs anywhere inside `s`.
pub fn str_contains(s: &str, t: &str) -> (r: bool)
    ensures
        r == spec_contains(s@, t@),
{
    let slen = s.unicode_len();
    let tlen = t.unicode_len();
    if tlen > slen {
        proof {
            if spec_contains(s@, t@) {
                let w = choose|w: int| 0 <= w && w + t@.len() <= s@.len()
                    && #[trigger] s@.subrange(w, w + t@.len()) == t@;
            }
        }
        return false;
    }
    if tlen == 0 {
        proof {
            assert(s@.subrange(0, 0 + t@.len() as int) =~= t@);
        }
        return true;
    }
    let mut i: usize = 0;
    while i <= slen - tlen
        invariant
            slen == s@.len(),
            tlen == t@.len(),
            1 <= tlen <= slen,
            i <= slen - tlen + 1,
            forall|j: int| 0 <= j < i ==> #[trigger] s@.subrange(j, j + t@.len()) != t@,
        decreases slen - i,
    {
        let piece = s.substring_char(i, i + tlen);
        if str_eq(piece, t) {
            proof {
                assert(s@.subrange(i as int, i + t@.len()) == t@);
            }
            return true;
        }
        i = i + 1;
    }
    proof {
        if spec_contains(s@, t@) {
            let w = choose|w: int| 0 <= w && w + t@.len() <= s@.len()
                && #[trigger] s@.subrange(w, w + t@.len()) == t@;
            assert(w < i);
        }
    }
    false
}

/// Splitting on line feeds: the segments of `s` between its `'\n'`
/// characters, in order. There is always one more segment than there
/// are line feeds; the final segment is the part after the last one.
pub open spec fn spec_split_nl(s: Seq<char>) -> Seq<Seq<char>>
    decreases s.len(),
{
    if s.len() == 0 {
        seq![Seq::empty()]
    } else {
        let front = spec_split_nl(s.drop_last());
        if s.last() == '\n' {
            front.push(Seq::empty())
        } else {
            front.update(front.len() - 1, front.last().push(s.last()))
        }
    }
}

/// A split always has at least one segment.
pub proof fn lemma_split_nl_len(s: Seq<char>)
    ensures
        spec_split_nl(s).len() >= 1,
    decreases s.len(),
{
    if s.len() > 0 {
        lemma_split_nl_len(s.drop_last());
    }
}

/// Extending the input by characters that are not line feeds extends
/// the final segment and nothing else.
proof fn lemma_split_nl_extend(s: Seq<char>, i: int, j: int)
    requires
        0 <= i <= j <= s.len(),
        forall|k: int| i <= k < j ==> s[k] != '\n',
    ensures
        spec_split_nl(s.take(j)) == ({
            let a = spec_split_nl(s.take(i));
            a.update(a.len() - 1, a.last() + s.subrange(i, j))
        }),
    decreases j - i,
{
    let a = spec_split_nl(s.take(i));
    lemma_split_nl_len(s.take(i));
    if i == j {
        assert(a.last() + s.subrange(i, j) =~= a.last());
        assert(a.update(a.len() - 1, a.last()) =~= a);
    } else {
        lemma_split_nl_extend(s, i, j - 1);
        let b = spec_split_nl(s.take(j - 1));
        lemma_split_nl_len(s.take(j - 1));
        assert(s.take(j).drop_last() =~= s.take(j - 1));
        assert(s.take(j).last() == s[j - 1]);
        assert(b.last() == a.last() + s.subrange(i, j - 1));
        assert((a.last() + s.subrange(i, j - 1)).push(s[j - 1]) =~= a.last() + s.subrange(i, j));
        assert(spec_split_nl(s.take(j))
            == b.update(b.len() - 1, b.last().push(s[j - 1])));
        assert(b.update(b.len() - 1, b.last().push(s[j - 1]))
            =~= a.update(a.len() - 1, a.last() + s.subrange(i, j)));
    }
}

/// A segment stripped of one trailing carriage return, as line
/// splitting treats a `"\r\n"` ending.
pub open spec fn spec_strip_cr(l: Seq<char>) -> Seq<char> {
    if l.len() > 0 && l.last() == '\r' {
        l.drop_last()
    } else {
        l
    }
}

/// The lines of `s`: each `'\n'`-terminated segment with a trailing
/// carriage return removed, then the final unterminated segment if it
/// is non-empty.
pub open spec fn spec_lines(s: Seq<char>) -> Seq<Seq<char>> {
    let raw = spec_split_nl(s);
    let terminated = raw.take(raw.len() - 1).map_values(|l: Seq<char>| spec_strip_cr(l));
    if raw.last().len() > 0 {
        terminated.push(raw.last())
    } else {
        terminated
    }
}

/// Splits `s` into its lines.
#[verifier::rlimit(50)]
pub fn split_lines(s: &str) -> (r: Vec<String>)
    ensures
        r.deep_view() == spec_lines(s@),
{
    let len = s.unicode_len();
    let mut done: Vec<String> = Vec::new();
    let mut i: usize = 0;
    proof {
        lemma_split_nl_len(s@.take(0));
        assert(spec_split_nl(s@.take(0)) =~= seq![Seq::<char>::empty()]);
        assert(done.deep_view() =~= spec_split_nl(s@.take(0)).drop_last().map_values(
            |l: Seq<char>| spec_strip_cr(l),
        ));
    }
    loop
        invariant
            len == s@.len(),
            i <= len,
            i == 0 || s@[i as int - 1] == '\n',
            done.deep_view() == spec_split_nl(s@.take(i as int)).drop_last().map_values(
                |l: Seq<char>| spec_strip_cr(l),
            ),
            spec_split_nl(s@.take(i as int)).last() == Seq::<char>::empty(),
        decreases len - i,
    {
        let nl = find_char(s, i, '\n');
        let ghost a = spec_split_nl(s@.take(i as int));
        proof {
            lemma_split_nl_len(s@.take(i as int));
        }
        match nl {
            Some(j) => {
                proof {
                    assert(forall|k: int| i <= k < j ==> s@[k] != '\n');
                    lemma_split_nl_extend(s@, i as int, j as int);
                }
                let ghost seg = s@.subrange(i as int, j as int);
                let line = if j > i && s.get_char(j - 1) == '\r' {
                    s.substring_char(i, j - 1)
                } else {
                    s.substring_char(i, j)
                };
                proof {
                    if j > i && s@[j - 1] == '\r' {
                        assert(line@ =~= spec_strip_cr(seg));
                    } else {
                        assert(line@ =~= spec_strip_cr(seg));
                    }
                }
                let owned = line.to_owned();
                let ghost old_done = done.deep_view();
                done.push(owned);
                proof {
                    assert(done.deep_view() =~= old_done.push(spec_strip_cr(seg)));
                    let b = spec_split_nl(s@.take(j as int));
                    assert(b == a.update(a.len() - 1, a.last() + seg));
                    assert(b.last() == seg);
                    assert(s@.take(j + 1).drop_last() =~= s@.take(j as int));
                    assert(s@.take(j + 1).last() == '\n');
                    lemma_split_nl_len(s@.take(j as int));
                    assert(spec_split_nl(s@.take(j + 1)) == b.push(Seq::<char>::empty()));
                    assert(spec_split_nl(s@.take(j + 1)).drop_last() =~= b);
                    assert(b.drop_last() =~= a.drop_last());
                    assert(b.map_values(|l: Seq<char>| spec_strip_cr(l))
                        =~= old_done.push(spec_strip_cr(seg)));
                }
                i = j + 1;
            },
            None => {
                proof {
                    assert(forall|k: int| i <= k < len ==> s@[k] != '\n');
                    lemma_split_nl_extend(s@, i as int, len as int);
                    assert(s@.take(len as int) =~= s@);
                }
                let ghost raw = spec_split_nl(s@);
                proof {
                    assert(raw == a.update(a.len() - 1, a.last() + s@.subrange(
                        i as int,
                        len as int,
                    )));
                    assert(raw.last() =~= s@.subrange(i as int, len as int));
                    assert(raw.drop_last() =~= a.drop_last());
                    assert(raw.take(raw.len() - 1) =~= raw.drop_last());
                }
                if i < len {
                    let line = s.substring_char(i, len);
                    let owned = line.to_owned();
                    let ghost old_done = done.deep_view();
                    done.push(owned);
                    proof {
                        assert(raw.last().len() > 0);
                        assert(done.deep_view() =~= old_done.push(raw.last()));
                        assert(a.drop_last().map_values(|l: Seq<char>| spec_strip_cr(l))
                            == old_done);
                    }
                } else {
                    proof {
                        assert(raw.last().len() == 0);
                        assert(a.last() + s@.subrange(i as int, len as int) =~= a.last());
                    }
                }
                return done;
            },
        }
    }
}

/// `s` starts with `t`: the first `t.len()` characters of `s` are `t`.
pub open spec fn spec_starts_with(s: Seq<char>, t: Seq<char>) -> bool {
    s.len() >= t.len() && s.subrange(0, t.len() as int) == t
}

/// Whether `s` starts with the prefix `t`.
pub fn str_starts_with(s: &str, t: &str) -> (r: bool)
    ensures
        r == spec_starts_with(s@, t@),
{
    let slen = s.unicode_len();
    let tlen = t.unicode_len();
    if slen < tlen {
        return false;
    }
    let mut i: usize = 0;
    while i < tlen
        invariant
            slen == s@.len(),
            tlen == t@.len(),
            slen >= tlen,
            i <= tlen,
            forall|j: int| 0 <= j < i ==> s@[j] == t@[j],
        decreases tlen - i,
    {
        if s.get_char(i) != t.get_char(i) {
            assert(s@.subrange(0, tlen as int)[i as int] != t@[i as int]);
            return false;
        }
        i = i + 1;
    }
    assert(s@.subrange(0, tlen as int) =~= t@);
    true
}

/// The Unicode white-space characters, as `char::is_whitespace` and
/// `str::trim` treat them.
pub open spec fn spec_is_ws(c: char) -> bool {
    ||| c as u32 == 9
    ||| c as u32 == 10
    ||| c as u32 == 11
    ||| c as u32 == 12
    ||| c as u32 == 13
    ||| c as u32 == 32
    ||| c as u32 == 0x85
    ||| c as u32 == 0xA0
    ||| c as u32 == 0x1680
    ||| 0x2000 <= c as u32 <= 0x200A
    ||| c as u32 == 0x2028
    ||| c as u32 == 0x2029
    ||| c as u32 == 0x202F
    ||| c as u32 == 0x205F
    ||| c as u32 == 0x3000
}

/// Whether `c` is white space.
pub fn is_ws(c: char) -> (r: bool)
    ensures
        r == spec_is_ws(c),
{
    let v = c as u32;
    v == 9 || v == 10 || v == 11 || v == 12 || v == 13 || v == 32
        || v == 0x85 || v == 0xA0 || v == 0x1680
        || (0x2000 <= v && v <= 0x200A)
        || v == 0x2028 || v == 0x2029 || v == 0x202F || v == 0x205F
        || v == 0x3000
}

/// `s` with its leading white space removed.
pub open spec fn spec_trim_start(s: Seq<char>) -> Seq<char>
    decreases s.len(),
{
    if s.len() > 0 && spec_is_ws(s[0]) {
        spec_trim_start(s.drop_first())
    } else {
        s
    }
}

/// `s` with its trailing white space removed.
pub open spec fn spec_trim_end(s: Seq<char>) -> Seq<char>
    decreases s.len(),
{
    if s.len() > 0 && spec_is_ws(s.last()) {
        spec_trim_end(s.drop_last())
    } else {
        s
    }
}

/// `s` with white space removed from both ends.
pub open spec fn spec_trim(s: Seq<char>) -> Seq<char> {
    spec_trim_end(spec_trim_start(s))
}

pub proof fn lemma_trim_start_skip(s: Seq<char>, a: int)
    requires
        0 <= a <= s.len(),
        forall|j: int| 0 <= j < a ==> spec_is_ws(#[trigger] s[j]),
        a == s.len() || !spec_is_ws(s[a]),
    ensures
        spec_trim_start(s) == s.skip(a),
    decreases a,
{
    if a == 0 {
        assert(s.skip(0) =~= s);
    } else {
        let t = s.drop_first();
        assert(t =~= s.skip(1));
        lemma_trim_start_skip(t, a - 1);
        assert(t.skip(a - 1) =~= s.skip(a));
    }
}

pub proof fn lemma_trim_end_take(s: Seq<char>, k: int)
    requires
        0 <= k <= s.len(),
        forall|j: int| k <= j < s.len() ==> spec_is_ws(#[trigger] s[j]),
        k == 0 || !spec_is_ws(s[k - 1]),
    ensures
        spec_trim_end(s) == s.take(k),
    decreases s.len() - k,
{
    if k == s.len() {
        assert(s.take(k) =~= s);
    } else {
        let t = s.drop_last();
        assert(t =~= s.take(s.len() - 1));
        lemma_trim_end_take(t, k);
        assert(t.take(k) =~= s.take(k));
    }
}

/// `s` without leading and trailing white space.
pub fn trim_str(s: &str) -> (r: &str)
    ensures
        r@ == spec_trim(s@),
{
    let len = s.unicode_len();
    let mut a: usize = 0;
    while a < len && is_ws(s.get_char(a))
        invariant
            len == s@.len(),
            a <= len,
            forall|j: int| 0 <= j < a ==> spec_is_ws(#[trigger] s@[j]),
        decreases len - a,
    {
        a = a + 1;
    }
    proof {
        lemma_trim_start_skip(s@, a as int);
    }
    if a == len {
        let r = s.substring_char(len, len);
        proof {
            assert(r@ =~= s@.skip(len as int));
            lemma_trim_end_take(s@.skip(len as int), 0);
            assert(s@.skip(len as int).take(0) =~= s@.skip(len as int));
        }
        return r;
    }
    let mut b: usize = len;
    while b > a + 1 && is_ws(s.get_char(b - 1))
        invariant
            len == s@.len(),
            a < len,
            !spec_is_ws(s@[a as int]),
            a + 1 <= b <= len,
            forall|j: int| b <= j < len ==> spec_is_ws(#[trigger] s@[j]),
        decreases b,
    {
        b = b - 1;
    }
    // either b == a + 1, or s[b - 1] is not white space
    let bb: usize = if b > a + 1 || !is_ws(s.get_char(b - 1)) { b } else { a };
    proof {
        let t = s@.skip(a as int);
        let k = bb - a;
        assert forall|j: int| k <= j < t.len() implies spec_is_ws(#[trigger] t[j]) by {
            assert(t[j] == s@[a + j]);
        }
        if k > 0 {
            assert(t[k - 1] == s@[bb - 1]);
        }
        lemma_trim_end_take(t, k as int);
    }
    let r = s.substring_char(a, bb);
    proof {
        assert(r@ =~= s@.skip(a as int).take((bb - a) as int));
    }
    r
}


/// Lexicographic order on strings, by code point: `a` comes no later
/// than `b`.
pub open spec fn spec_str_le(a: Seq<char>, b: Seq<char>) -> bool
    decreases a.len(),
{
    if a.len() == 0 {
        true
    } else if b.len() == 0 {
        false
    } else if (a[0] as u32) < (b[0] as u32) {
        true
    } else if (a[0] as u32) > (b[0] as u32) {
        false
    } else {
        spec_str_le(a.drop_first(), b.drop_first())
    }
}

/// The lexicographic order is total.
pub proof fn lemma_str_le_total(a: Seq<char>, b: Seq<char>)
    ensures
        spec_str_le(a, b) || spec_str_le(b, a),
    decreases a.len(),
{
    if a.len() > 0 && b.len() > 0 && (a[0] as u32) == (b[0] as u32) {
        lemma_str_le_total(a.drop_first(), b.drop_first());
    }
}

/// The lexicographic order is transitive.
pub proof fn lemma_str_le_trans(a: Seq<char>, b: Seq<char>, c: Seq<char>)
    requires
        spec_str_le(a, b),
        spec_str_le(b, c),
    ensures
        spec_str_le(a, c),
    decreases a.len(),
{
    if a.len() > 0 && b.len() > 0 && c.len() > 0 && (a[0] as u32) == (b[0] as u32)
        && (b[0] as u32) == (c[0] as u32) {
        lemma_str_le_trans(a.drop_first(), b.drop_first(), c.drop_first());
    }
}

/// Whether `a` comes no later than `b` in lexicographic order.
pub fn str_le(a: &str, b: &str) -> (r: bool)
    ensures
        r == spec_str_le(a@, b@),
{
    let alen = a.unicode_len();
    let blen = b.unicode_len();
    let mut i: usize = 0;
    proof {
        assert(a@.skip(0) =~= a@);
        assert(b@.skip(0) =~= b@);
    }
    while i < alen && i < blen
        invariant
            alen == a@.len(),
            blen == b@.len(),
            i <= alen,
            i <= blen,
            spec_str_le(a@, b@) == spec_str_le(a@.skip(i as int), b@.skip(i as int)),
        decreases alen - i,
    {
        let ca = a.get_char(i);
        let cb = b.get_char(i);
        proof {
            assert(a@.skip(i as int)[0] == a@[i as int]);
            assert(b@.skip(i as int)[0] == b@[i as int]);
            assert(a@.skip(i as int).drop_first() =~= a@.skip(i + 1));
            assert(b@.skip(i as int).drop_first() =~= b@.skip(i + 1));
        }
        if (ca as u32) < (cb as u32) {
            return true;
        }
        if (ca as u32) > (cb as u32) {
            return false;
        }
        i = i + 1;
    }
    proof {
        if i == alen {
            assert(a@.skip(i as int).len() == 0);
        } else {
            assert(b@.skip(i as int).len() == 0);
            assert(a@.skip(i as int).len() > 0);
        }
    }
    alen <= blen
}

} // verus!

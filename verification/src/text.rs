//! Verified helpers for working with strings as character sequences:
//! code-point order on keys and conversions between `String` and `Vec<char>`.

use vstd::prelude::*;
use vstd::string::StrSliceExecFns;

verus! {

/// Strict lexicographic order on character sequences, comparing code points.
pub open spec fn lex_lt(a: Seq<char>, b: Seq<char>) -> bool
    decreases a.len(),
{
    if b.len() == 0 {
        false
    } else if a.len() == 0 {
        true
    } else if a[0] < b[0] {
        true
    } else if b[0] < a[0] {
        false
    } else {
        lex_lt(a.drop_first(), b.drop_first())
    }
}

/// No sequence is lexicographically below itself.
pub proof fn lemma_lex_lt_irrefl(a: Seq<char>)
    ensures
        !lex_lt(a, a),
    decreases a.len(),
{
    if a.len() > 0 {
        lemma_lex_lt_irrefl(a.drop_first());
    }
}

/// Any two sequences are ordered one way or the other, or are equal.
pub proof fn lemma_lex_lt_trichotomy(a: Seq<char>, b: Seq<char>)
    ensures
        lex_lt(a, b) || lex_lt(b, a) || a == b,
    decreases a.len(),
{
    if a.len() == 0 && b.len() == 0 {
        assert(a =~= b);
    } else if a.len() == 0 {
        assert(lex_lt(a, b));
    } else if b.len() == 0 {
        assert(lex_lt(b, a));
    } else if a[0] < b[0] {
        assert(lex_lt(a, b));
    } else if b[0] < a[0] {
        assert(lex_lt(b, a));
    } else {
        lemma_lex_lt_trichotomy(a.drop_first(), b.drop_first());
        if !lex_lt(a, b) && !lex_lt(b, a) {
            assert(a.drop_first() == b.drop_first());
            assert forall|i: int| 0 <= i < a.len() implies a[i] == b[i] by {
                if i > 0 {
                    assert(a.drop_first()[i - 1] == b.drop_first()[i - 1]);
                }
            }
            assert(a =~= b);
        }
    }
}

/// The order is transitive.
pub proof fn lemma_lex_lt_trans(a: Seq<char>, b: Seq<char>, c: Seq<char>)
    requires
        lex_lt(a, b),
        lex_lt(b, c),
    ensures
        lex_lt(a, c),
    decreases a.len(),
{
    if a.len() == 0 {
        assert(lex_lt(a, c));
    } else if a.len() > 0 && b.len() > 0 && c.len() > 0 && a[0] == b[0] && b[0] == c[0] {
        lemma_lex_lt_trans(a.drop_first(), b.drop_first(), c.drop_first());
    } else {
        assert(b.len() > 0 && c.len() > 0);
        if a[0] < b[0] {
            if b[0] <= c[0] {
                assert(lex_lt(a, c));
            } else {
                assert(!lex_lt(b, c));
            }
        } else {
            assert(a[0] == b[0]);
            assert(b[0] < c[0]);
            assert(lex_lt(a, c));
        }
    }
}

/// Dropping an equal first character on both sides keeps the order.
proof fn lemma_lex_lt_unfold(a: Seq<char>, b: Seq<char>)
    requires
        a.len() > 0,
        b.len() > 0,
        a[0] == b[0],
    ensures
        lex_lt(a, b) == lex_lt(a.drop_first(), b.drop_first()),
{
}

/// Compares two strings in code-point order.
pub fn str_lt(a: &str, b: &str) -> (r: bool)
    ensures
        r == lex_lt(a@, b@),
{
    let alen = a.unicode_len();
    let blen = b.unicode_len();
    let mut i: usize = 0;
    proof {
        assert(a@.skip(0) =~= a@);
        assert(b@.skip(0) =~= b@);
    }
    loop
        invariant
            i <= alen,
            i <= blen,
            alen == a@.len(),
            blen == b@.len(),
            lex_lt(a@, b@) == lex_lt(a@.skip(i as int), b@.skip(i as int)),
        decreases alen - i,
    {
        if i >= alen || i >= blen {
            proof {
                if i >= alen {
                    assert(a@.skip(i as int) =~= Seq::<char>::empty());
                }
                if i >= blen {
                    assert(b@.skip(i as int) =~= Seq::<char>::empty());
                }
            }
            return alen < blen;
        }
        let ca = a.get_char(i);
        let cb = b.get_char(i);
        proof {
            assert(a@.skip(i as int)[0] == a@[i as int]);
            assert(b@.skip(i as int)[0] == b@[i as int]);
        }
        if ca < cb {
            return true;
        }
        if cb < ca {
            return false;
        }
        proof {
            lemma_lex_lt_unfold(a@.skip(i as int), b@.skip(i as int));
            assert(a@.skip(i as int).drop_first() =~= a@.skip(i as int + 1));
            assert(b@.skip(i as int).drop_first() =~= b@.skip(i as int + 1));
        }
        i = i + 1;
    }
}

/// Tests two strings for equality, character by character.
pub fn str_eq(a: &str, b: &str) -> (r: bool)
    ensures
        r == (a@ == b@),
{
    let alen = a.unicode_len();
    let blen = b.unicode_len();
    if alen != blen {
        return false;
    }
    let mut i: usize = 0;
    while i < alen
        invariant
            i <= alen,
            alen == a@.len(),
            alen == b@.len(),
            forall|j: int| 0 <= j < i ==> a@[j] == b@[j],
        decreases alen - i,
    {
        if a.get_char(i) != b.get_char(i) {
            return false;
        }
        i = i + 1;
    }
    proof {
        assert(a@ =~= b@);
    }
    true
}

/// Tests a string against a character vector for equality.
pub fn string_eq_chars(s: &str, t: &Vec<char>) -> (r: bool)
    ensures
        r == (s@ == t@),
{
    let slen = s.unicode_len();
    let tlen = t.len();
    if slen != tlen {
        return false;
    }
    let mut i: usize = 0;
    while i < slen
        invariant
            i <= slen,
            slen == s@.len(),
            slen == t@.len(),
            forall|j: int| 0 <= j < i ==> s@[j] == t@[j],
        decreases slen - i,
    {
        if s.get_char(i) != t[i] {
            return false;
        }
        i = i + 1;
    }
    proof {
        assert(s@ =~= t@);
    }
    true
}

/// The characters of a string, in order.
pub fn chars_of(s: &str) -> (r: Vec<char>)
    ensures
        r@ == s@,
{
    let len = s.unicode_len();
    let mut r: Vec<char> = Vec::new();
    let mut i: usize = 0;
    while i < len
        invariant
            i <= len,
            len == s@.len(),
            r@ == s@.subrange(0, i as int),
        decreases len - i,
    {
        r.push(s.get_char(i));
        proof {
            assert(r@ =~= s@.subrange(0, i as int + 1));
        }
        i = i + 1;
    }
    proof {
        assert(r@ =~= s@);
    }
    r
}

/// Relies on `String`'s `FromIterator<char>` implementation: collecting
/// characters yields the string with exactly those characters in order.
#[verifier::external_body]
pub(crate) fn string_from_chars(v: &Vec<char>) -> (r: String)
    ensures
        r@ == v@,
{
    v.iter().collect()
}

/// The index of the first occurrence of `ch` in `s`, or `s.len()` if there
/// is none.
pub open spec fn index_of_ch(s: Seq<char>, ch: char) -> int
    decreases s.len(),
{
    if s.len() == 0 {
        0
    } else if s[0] == ch {
        0
    } else {
        1 + index_of_ch(s.drop_first(), ch)
    }
}

/// What [`index_of_ch`] returns: an in-range position holding `ch` with no
/// earlier occurrence, or the length when `ch` does not occur.
pub proof fn lemma_index_of_ch(s: Seq<char>, ch: char)
    ensures
        0 <= index_of_ch(s, ch) <= s.len(),
        index_of_ch(s, ch) < s.len() ==> s[index_of_ch(s, ch)] == ch,
        forall|j: int| 0 <= j < index_of_ch(s, ch) ==> s[j] != ch,
    decreases s.len(),
{
    if s.len() > 0 && s[0] != ch {
        lemma_index_of_ch(s.drop_first(), ch);
        let k = index_of_ch(s, ch);
        assert forall|j: int| 0 <= j < k implies s[j] != ch by {
            if j > 0 {
                assert(s.drop_first()[j - 1] != ch);
            }
        }
    }
}

/// A position that holds `ch` with no earlier occurrence is the index that
/// [`index_of_ch`] finds; if `ch` never occurs the index is the length.
pub proof fn lemma_index_of_ch_unique(s: Seq<char>, ch: char, i: int)
    requires
        0 <= i <= s.len(),
        i < s.len() ==> s[i] == ch,
        forall|j: int| 0 <= j < i ==> s[j] != ch,
    ensures
        i < s.len() ==> index_of_ch(s, ch) == i,
        i == s.len() ==> index_of_ch(s, ch) == s.len(),
    decreases s.len(),
{
    if s.len() > 0 && s[0] != ch {
        assert forall|j: int| 0 <= j < i - 1 implies s.drop_first()[j] != ch by {
            assert(s[j + 1] != ch);
        }
        lemma_index_of_ch_unique(s.drop_first(), ch, if i >= 1 { i - 1 } else { 0 });
    }
}

/// The pieces of `s` between occurrences of `ch`: one piece more than
/// there are separators, empty pieces kept.
pub open spec fn split_on(s: Seq<char>, ch: char) -> Seq<Seq<char>>
    decreases s.len(),
    via split_on_decreases
{
    let k = index_of_ch(s, ch);
    if k >= s.len() {
        seq![s]
    } else {
        seq![s.take(k)] + split_on(s.skip(k + 1), ch)
    }
}

#[via_fn]
proof fn split_on_decreases(s: Seq<char>, ch: char) {
    lemma_index_of_ch(s, ch);
}

/// Splits a string at every occurrence of `ch`.
pub fn split_string(s: &str, ch: char) -> (r: Vec<String>)
    ensures
        r.deep_view() == split_on(s@, ch),
{
    let chars = chars_of(s);
    let n = chars.len();
    let mut parts: Vec<String> = Vec::new();
    let mut p: usize = 0;
    proof {
        assert(chars@.skip(0) =~= s@);
    }
    loop
        invariant
            p <= n,
            n == chars@.len(),
            chars@ == s@,
            split_on(s@, ch) == parts.deep_view() + split_on(chars@.skip(p as int), ch),
        decreases n - p,
    {
        let ghost rest = chars@.skip(p as int);
        let ghost parts_before = parts.deep_view();
        let mut q: usize = p;
        while q < n && chars[q] != ch
            invariant
                p <= q <= n,
                n == chars@.len(),
                forall|j: int| p <= j < q ==> chars@[j] != ch,
            decreases n - q,
        {
            q = q + 1;
        }
        proof {
            assert forall|j: int| 0 <= j < q - p implies rest[j] != ch by {
                assert(rest[j] == chars@[p + j]);
            }
            if q < n {
                assert(rest[q - p] == chars@[q as int]);
            }
            lemma_index_of_ch_unique(rest, ch, q - p);
        }
        let piece_chars = crate::pointer::subrange_chars(&chars, p, q);
        proof {
            assert(piece_chars@ =~= rest.take(q - p));
        }
        let piece = string_from_chars(&piece_chars);
        parts.push(piece);
        proof {
            assert forall|j: int|
                0 <= j < parts_before.len() implies parts.deep_view()[j] == parts_before[j] by {
                assert(parts.deep_view()[j] == parts@[j]@);
                assert(parts_before[j] == parts@[j]@);
            }
            assert(parts.deep_view() =~= parts_before + seq![rest.take(q - p)]);
        }
        if q == n {
            proof {
                assert(rest.take(q - p) =~= rest);
                assert(split_on(rest, ch) =~= seq![rest]);
                assert(parts.deep_view() =~= split_on(s@, ch));
            }
            return parts;
        }
        proof {
            assert(rest.skip(q - p + 1) =~= chars@.skip(q as int + 1));
            assert(parts_before + (seq![rest.take(q - p)] + split_on(rest.skip(q - p + 1), ch))
                =~= parts.deep_view() + split_on(chars@.skip(q as int + 1), ch));
        }
        p = q + 1;
    }
}

/// The whitespace the configuration reader strips: space, tab, carriage
/// return, and line feed.
pub open spec fn is_space(c: char) -> bool {
    c == ' ' || c == '\t' || c == '\r' || c == '\n'
}

/// `s` with leading and trailing whitespace removed.
pub open spec fn trimmed(s: Seq<char>) -> Seq<char>
    decreases s.len(),
{
    if s.len() == 0 {
        s
    } else if is_space(s[0]) {
        trimmed(s.drop_first())
    } else if is_space(s.last()) {
        trimmed(s.drop_last())
    } else {
        s
    }
}

/// Strips leading and trailing whitespace from a character vector.
pub fn trim_chars(s: &Vec<char>) -> (r: Vec<char>)
    ensures
        r@ == trimmed(s@),
{
    let n = s.len();
    let mut lo: usize = 0;
    let mut hi: usize = n;
    proof {
        assert(s@.subrange(0, n as int) =~= s@);
    }
    while lo < hi && (s[lo] == ' ' || s[lo] == '\t' || s[lo] == '\r' || s[lo] == '\n')
        invariant
            lo <= hi <= n,
            n == s@.len(),
            trimmed(s@) == trimmed(s@.subrange(lo as int, hi as int)),
            hi == n,
        decreases hi - lo,
    {
        proof {
            let cur = s@.subrange(lo as int, hi as int);
            assert(cur[0] == s@[lo as int]);
            assert(cur.drop_first() =~= s@.subrange(lo as int + 1, hi as int));
        }
        lo = lo + 1;
    }
    while lo < hi && (s[hi - 1] == ' ' || s[hi - 1] == '\t' || s[hi - 1] == '\r' || s[hi - 1]
        == '\n')
        invariant
            lo <= hi <= n,
            n == s@.len(),
            trimmed(s@) == trimmed(s@.subrange(lo as int, hi as int)),
            lo < hi ==> !is_space(s@[lo as int]),
        decreases hi - lo,
    {
        proof {
            let cur = s@.subrange(lo as int, hi as int);
            assert(cur[0] == s@[lo as int]);
            assert(cur.last() == s@[hi - 1]);
            assert(cur.drop_last() =~= s@.subrange(lo as int, hi as int - 1));
        }
        hi = hi - 1;
    }
    proof {
        let cur = s@.subrange(lo as int, hi as int);
        if cur.len() > 0 {
            assert(cur[0] == s@[lo as int]);
            assert(cur.last() == s@[hi - 1]);
        }
        assert(trimmed(cur) == cur);
    }
    crate::pointer::subrange_chars(s, lo, hi)
}

/// Replaces every occurrence of `pat` in `s` by `rep`, scanning left to
/// right without overlap, as `str::replace` does.  With an empty pattern the
/// input is returned unchanged.
pub open spec fn replace_all(s: Seq<char>, pat: Seq<char>, rep: Seq<char>) -> Seq<char>
    decreases s.len(),
{
    if pat.len() == 0 || s.len() < pat.len() {
        s
    } else if s.take(pat.len() as int) == pat {
        rep + replace_all(s.skip(pat.len() as int), pat, rep)
    } else {
        seq![s[0]] + replace_all(s.drop_first(), pat, rep)
    }
}

/// A sequence without any occurrence of the pattern's first character is
/// left unchanged by [`replace_all`].
pub proof fn lemma_replace_all_absent(s: Seq<char>, pat: Seq<char>, rep: Seq<char>)
    requires
        pat.len() > 0,
        forall|j: int| 0 <= j < s.len() ==> s[j] != pat[0],
    ensures
        replace_all(s, pat, rep) == s,
    decreases s.len(),
{
    if s.len() >= pat.len() {
        assert(s.take(pat.len() as int)[0] == s[0]);
        assert(s.take(pat.len() as int) != pat);
        lemma_replace_all_absent(s.drop_first(), pat, rep);
        assert(seq![s[0]] + s.drop_first() =~= s);
    }
}

/// Whether `pat` occurs in `s` starting at `i`.
pub open spec fn matches_at(s: Seq<char>, pat: Seq<char>, i: int) -> bool {
    0 <= i && i + pat.len() <= s.len() && s.subrange(i, i + pat.len()) == pat
}

/// Compares the characters of `s` starting at `i` with `pat`.
fn check_match(s: &Vec<char>, pat: &Vec<char>, i: usize) -> (r: bool)
    requires
        i + pat@.len() <= s@.len(),
    ensures
        r == matches_at(s@, pat@, i as int),
{
    let plen = pat.len();
    let slen = s.len();
    let mut j: usize = 0;
    while j < plen
        invariant
            j <= plen,
            plen == pat@.len(),
            slen == s@.len(),
            i + plen <= slen,
            forall|q: int| 0 <= q < j ==> s@[i + q] == pat@[q],
        decreases plen - j,
    {
        if s[i + j] != pat[j] {
            proof {
                assert(s@.subrange(i as int, i + plen)[j as int] == s@[i + j]);
            }
            return false;
        }
        j = j + 1;
    }
    proof {
        assert(s@.subrange(i as int, i + plen) =~= pat@);
    }
    true
}

/// Replaces every occurrence of `pat` by `rep`, scanning left to right
/// without overlap.
pub fn replace_chars(s: &Vec<char>, pat: &Vec<char>, rep: &Vec<char>) -> (r: Vec<char>)
    requires
        pat@.len() > 0,
    ensures
        r@ == replace_all(s@, pat@, rep@),
{
    let slen = s.len();
    let plen = pat.len();
    let mut out: Vec<char> = Vec::new();
    let mut i: usize = 0;
    proof {
        assert(s@.skip(0) =~= s@);
    }
    while i < slen
        invariant
            i <= slen,
            slen == s@.len(),
            plen == pat@.len(),
            plen > 0,
            replace_all(s@, pat@, rep@) == out@ + replace_all(s@.skip(i as int), pat@, rep@),
        decreases slen - i,
    {
        let ghost rest = s@.skip(i as int);
        if plen <= slen - i && check_match(s, pat, i) {
            proof {
                assert(rest.take(plen as int) =~= s@.subrange(i as int, i + plen));
                assert(rest.skip(plen as int) =~= s@.skip(i + plen));
                assert(replace_all(rest, pat@, rep@) == rep@ + replace_all(
                    s@.skip(i + plen),
                    pat@,
                    rep@,
                ));
            }
            let mut j: usize = 0;
            let ghost out_before = out@;
            while j < rep.len()
                invariant
                    j <= rep@.len(),
                    out@ == out_before + rep@.subrange(0, j as int),
                decreases rep@.len() - j,
            {
                out.push(rep[j]);
                proof {
                    assert(out@ =~= out_before + rep@.subrange(0, j as int + 1));
                }
                j = j + 1;
            }
            proof {
                assert(out@ =~= out_before + rep@);
                assert(out_before + rep@ + replace_all(s@.skip(i + plen), pat@, rep@)
                    =~= out_before + (rep@ + replace_all(s@.skip(i + plen), pat@, rep@)));
            }
            i = i + plen;
        } else {
            proof {
                if rest.len() >= plen {
                    assert(rest.take(plen as int) =~= s@.subrange(i as int, i + plen));
                    assert(rest.take(plen as int) != pat@);
                }
                assert(replace_all(rest, pat@, rep@) == seq![rest[0]] + replace_all(
                    rest.drop_first(),
                    pat@,
                    rep@,
                ));
                assert(rest[0] == s@[i as int]);
                assert(rest.drop_first() =~= s@.skip(i as int + 1));
            }
            let ghost out_before = out@;
            out.push(s[i]);
            proof {
                assert(out@ + replace_all(s@.skip(i as int + 1), pat@, rep@) =~= out_before + (
                seq![s@[i as int]] + replace_all(s@.skip(i as int + 1), pat@, rep@)));
            }
            i = i + 1;
        }
    }
    proof {
        assert(s@.skip(slen as int) =~= Seq::<char>::empty());
        assert(out@ + Seq::<char>::empty() =~= out@);
    }
    out
}

} // verus!

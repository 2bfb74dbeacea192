//! JSON-pointer lookup into a [`Value`].
//!
//! The empty pointer names the whole value; any other pointer must begin
//! with `/` and is split on `/` into tokens.  Each token is unescaped
//! (`~1` to `/`, then `~0` to `~`) and descends into mappings by key and
//! into arrays by a strictly-decimal index.

use vstd::prelude::*;
use crate::text::index_of_ch;
use crate::text::lemma_index_of_ch;
use crate::text::lemma_index_of_ch_unique;
use crate::text::replace_all;
use crate::text::replace_chars;
use crate::text::chars_of;
use crate::value::Value;
use crate::value::ValueV;
use crate::value::obj_get;
use crate::value::obj_lookup_chars;

verus! {

/// A token with `~1` turned back into `/` and then `~0` back into `~`.
pub open spec fn unescape_token(t: Seq<char>) -> Seq<char> {
    replace_all(replace_all(t, seq!['~', '1'], seq!['/']), seq!['~', '0'], seq!['~'])
}

/// Whether every character of `t` is a decimal digit.
pub open spec fn all_digits(t: Seq<char>) -> bool {
    forall|i: int| 0 <= i < t.len() ==> '0' <= #[trigger] t[i] && t[i] <= '9'
}

/// The number written in decimal in `t`, most significant digit first.
pub open spec fn digits_value(t: Seq<char>) -> int
    decreases t.len(),
{
    if t.len() == 0 {
        0
    } else {
        digits_value(t.take(t.len() - 1)) * 10 + (t[t.len() - 1] as int - '0' as int)
    }
}

/// The array index written in a token: all decimal digits, no leading `+`,
/// a leading `0` only as the single digit `0`, and small enough for `usize`.
pub open spec fn parse_index_spec(t: Seq<char>) -> Option<int> {
    if t.len() == 0 {
        None
    } else if t[0] == '+' {
        None
    } else if t[0] == '0' && t.len() != 1 {
        None
    } else if !all_digits(t) {
        None
    } else if digits_value(t) > usize::MAX as int {
        None
    } else {
        Some(digits_value(t))
    }
}

/// One descent step: a mapping is entered by key, an array by parsed index.
pub open spec fn ptr_step(v: ValueV, token: Seq<char>) -> Option<ValueV> {
    match v {
        ValueV::Object(entries) => obj_get(entries, token),
        ValueV::Array(items) => match parse_index_spec(token) {
            Some(idx) => if idx < items.len() {
                Some(items[idx])
            } else {
                None
            },
            None => None,
        },
        _ => None,
    }
}

/// Descends along the part of a pointer that follows its leading `/`:
/// the text up to the next `/` (unescaped) is one token, and the rest, if
/// any, is applied to the value the token selected.
pub open spec fn ptr_lookup_from(v: ValueV, s: Seq<char>) -> Option<ValueV>
    decreases s.len(),
    via ptr_lookup_from_decreases
{
    let k = index_of_ch(s, '/');
    let child = ptr_step(v, unescape_token(s.take(k)));
    if k >= s.len() {
        child
    } else {
        match child {
            Some(c) => ptr_lookup_from(c, s.skip(k + 1)),
            None => None,
        }
    }
}

#[via_fn]
proof fn ptr_lookup_from_decreases(v: ValueV, s: Seq<char>) {
    lemma_index_of_ch(s, '/');
}

/// Looks a pointer up in a value: the empty pointer names the value itself,
/// a pointer that does not start with `/` names nothing, and any other
/// pointer descends token by token.
pub open spec fn ptr_lookup(v: ValueV, pointer: Seq<char>) -> Option<ValueV> {
    if pointer.len() == 0 {
        Some(v)
    } else if pointer[0] != '/' {
        None
    } else {
        ptr_lookup_from(v, pointer.drop_first())
    }
}

/// Parses a token as an array index.
fn parse_index_chars(t: &Vec<char>) -> (r: Option<usize>)
    ensures
        match r {
            Some(u) => parse_index_spec(t@) == Some(u as int),
            None => parse_index_spec(t@) is None,
        },
{
    let n = t.len();
    if n == 0 {
        return None;
    }
    if t[0] == '+' {
        return None;
    }
    if t[0] == '0' && n != 1 {
        return None;
    }
    let mut acc: usize = 0;
    let mut i: usize = 0;
    proof {
        assert(t@.take(0) =~= Seq::<char>::empty());
    }
    while i < n
        invariant
            i <= n,
            n == t@.len(),
            n > 0,
            t@[0] != '+',
            t@[0] == '0' ==> n == 1,
            all_digits(t@.take(i as int)),
            acc as int == digits_value(t@.take(i as int)),
        decreases n - i,
    {
        let c = t[i];
        if c < '0' || c > '9' {
            proof {
                assert(!all_digits(t@));
            }
            return None;
        }
        let d = (c as u32 - '0' as u32) as usize;
        let next = match acc.checked_mul(10) {
            Some(m) => m.checked_add(d),
            None => None,
        };
        proof {
            assert(t@.take(i as int + 1).take(i as int) =~= t@.take(i as int));
            assert(t@.take(i as int + 1)[i as int] == t@[i as int]);
        }
        match next {
            Some(m) => {
                acc = m;
            },
            None => {
                proof {
                    if all_digits(t@) {
                        lemma_digits_grow(t@, i as int + 1);
                    }
                }
                return None;
            },
        }
        i = i + 1;
    }
    proof {
        assert(t@.take(n as int) =~= t@);
    }
    Some(acc)
}

/// A prefix of a digit string writes a number that is not negative.
proof fn lemma_digits_prefix_nonneg(t: Seq<char>, i: int)
    requires
        all_digits(t),
        0 <= i <= t.len(),
    ensures
        digits_value(t.take(i)) >= 0,
    decreases i,
{
    if i > 0 {
        lemma_digits_prefix_nonneg(t, i - 1);
        assert(t.take(i).take(i - 1) =~= t.take(i - 1));
        assert(t.take(i)[i - 1] == t[i - 1]);
    }
}

/// A longer digit prefix never writes a smaller number.
pub proof fn lemma_digits_grow(t: Seq<char>, i: int)
    requires
        all_digits(t),
        0 <= i <= t.len(),
    ensures
        digits_value(t) >= digits_value(t.take(i)),
        digits_value(t.take(i)) >= 0,
    decreases t.len() - i,
{
    lemma_digits_prefix_nonneg(t, i);
    if i < t.len() {
        lemma_digits_grow(t, i + 1);
        assert(t.take(i + 1).take(i) =~= t.take(i));
        assert(t.take(i + 1)[i] == t[i]);
    } else {
        assert(t.take(i) =~= t);
    }
}

/// Extracts `s[from..to]` as a fresh vector.
pub fn subrange_chars(s: &Vec<char>, from: usize, to: usize) -> (r: Vec<char>)
    requires
        from <= to,
        to <= s@.len(),
    ensures
        r@ == s@.subrange(from as int, to as int),
{
    let mut r: Vec<char> = Vec::new();
    let mut i: usize = from;
    while i < to
        invariant
            from <= i <= to,
            to <= s@.len(),
            r@ == s@.subrange(from as int, i as int),
        decreases to - i,
    {
        r.push(s[i]);
        proof {
            assert(r@ =~= s@.subrange(from as int, i as int + 1));
        }
        i = i + 1;
    }
    r
}

/// Unescapes one pointer token: `~1` to `/`, then `~0` to `~`.
fn unescape_chars(t: &Vec<char>) -> (r: Vec<char>)
    ensures
        r@ == unescape_token(t@),
{
    let pat1: Vec<char> = vec!['~', '1'];
    let rep1: Vec<char> = vec!['/'];
    let pat0: Vec<char> = vec!['~', '0'];
    let rep0: Vec<char> = vec!['~'];
    proof {
        assert(pat1@ =~= seq!['~', '1']);
        assert(rep1@ =~= seq!['/']);
        assert(pat0@ =~= seq!['~', '0']);
        assert(rep0@ =~= seq!['~']);
    }
    let step1 = replace_chars(t, &pat1, &rep1);
    replace_chars(&step1, &pat0, &rep0)
}

impl Value {
    /// Looks a pointer, given as characters, up in this value.
    pub fn pointer_chars<'a>(&'a self, pointer: &Vec<char>) -> (r: Option<&'a Value>)
        ensures
            match r {
                Some(v) => ptr_lookup(self@, pointer@) == Some(v@),
                None => ptr_lookup(self@, pointer@) is None,
            },
    {
        let n = pointer.len();
        if n == 0 {
            return Some(self);
        }
        if pointer[0] != '/' {
            return None;
        }
        let mut cur: &Value = self;
        let mut p: usize = 1;
        proof {
            assert(pointer@.skip(1) =~= pointer@.drop_first());
        }
        loop
            invariant
                1 <= p <= n,
                n == pointer@.len(),
                ptr_lookup(self@, pointer@) == ptr_lookup_from(cur@, pointer@.skip(p as int)),
            decreases n - p,
        {
            let ghost rest = pointer@.skip(p as int);
            let mut q: usize = p;
            while q < n && pointer[q] != '/'
                invariant
                    p <= q <= n,
                    n == pointer@.len(),
                    forall|j: int| p <= j < q ==> pointer@[j] != '/',
                decreases n - q,
            {
                q = q + 1;
            }
            proof {
                assert forall|j: int| 0 <= j < q - p implies rest[j] != '/' by {
                    assert(rest[j] == pointer@[p + j]);
                }
                if q < n {
                    assert(rest[q - p] == pointer@[q as int]);
                }
                lemma_index_of_ch_unique(rest, '/', q - p);
                assert(index_of_ch(rest, '/') == q - p);
            }
            let raw = subrange_chars(pointer, p, q);
            proof {
                assert(raw@ =~= rest.take(q - p));
            }
            let token = unescape_chars(&raw);
            let next: &Value = match cur {
                Value::Object(entries) => {
                    proof {
                        crate::value::lemma_object_model(*cur);
                    }
                    match obj_lookup_chars(entries, &token) {
                        Some(v) => v,
                        None => {
                            return None;
                        },
                    }
                },
                Value::Array(items) => {
                    proof {
                        crate::value::lemma_array_model(*cur);
                    }
                    match parse_index_chars(&token) {
                        Some(idx) => {
                            if idx < items.len() {
                                &items[idx]
                            } else {
                                return None;
                            }
                        },
                        None => {
                            return None;
                        },
                    }
                },
                _ => {
                    return None;
                },
            };
            proof {
                assert(ptr_step(cur@, unescape_token(rest.take(q - p))) == Some(next@));
            }
            if q == n {
                return Some(next);
            }
            proof {
                assert(rest.skip(q - p + 1) =~= pointer@.skip(q as int + 1));
            }
            cur = next;
            p = q + 1;
        }
    }

    /// Looks a pointer up in this value.  The empty pointer returns the
    /// value itself; any other pointer must begin with `/`.
    pub fn pointer<'a>(&'a self, pointer: &str) -> (r: Option<&'a Value>)
        ensures
            match r {
                Some(v) => ptr_lookup(self@, pointer@) == Some(v@),
                None => ptr_lookup(self@, pointer@) is None,
            },
    {
        let chars = chars_of(pointer);
        self.pointer_chars(&chars)
    }
}

/// Escapes a key for use as a pointer token: `~` becomes `~0`, then `/`
/// becomes `~1`.
pub open spec fn escape_token(t: Seq<char>) -> Seq<char> {
    replace_all(replace_all(t, seq!['~'], seq!['~', '0']), seq!['/'], seq!['~', '1'])
}

/// What one character contributes to its escaped form.
pub open spec fn esc_char(c: char) -> Seq<char> {
    if c == '~' {
        seq!['~', '0']
    } else if c == '/' {
        seq!['~', '1']
    } else {
        seq![c]
    }
}

/// Unfolds [`replace_all`] one step for a single-character pattern.
proof fn lemma_ra1_unfold(s: Seq<char>, p: char, rep: Seq<char>)
    requires
        s.len() > 0,
    ensures
        replace_all(s, seq![p], rep) == if s[0] == p {
            rep + replace_all(s.drop_first(), seq![p], rep)
        } else {
            seq![s[0]] + replace_all(s.drop_first(), seq![p], rep)
        },
{
    assert(s.take(1) =~= seq![s[0]]);
    assert(s.skip(1) =~= s.drop_first());
    if s[0] == p {
        assert(s.take(1) =~= seq![p]);
    } else {
        assert(s.take(1) != seq![p]) by {
            if s.take(1) == seq![p] {
                assert(s.take(1)[0] == p);
            }
        }
    }
}

/// Unfolds [`replace_all`] one step for a two-character pattern.
proof fn lemma_ra2_unfold(s: Seq<char>, p0: char, p1: char, rep: Seq<char>)
    requires
        s.len() > 0,
    ensures
        replace_all(s, seq![p0, p1], rep) == if s.len() >= 2 && s[0] == p0 && s[1] == p1 {
            rep + replace_all(s.skip(2), seq![p0, p1], rep)
        } else {
            seq![s[0]] + replace_all(s.drop_first(), seq![p0, p1], rep)
        },
{
    if s.len() == 1 {
        assert(replace_all(s, seq![p0, p1], rep) == s);
        assert(s.drop_first() =~= Seq::<char>::empty());
        assert(seq![s[0]] + s.drop_first() =~= s);
    } else {
        assert(s.take(2) =~= seq![s[0], s[1]]);
        if s[0] == p0 && s[1] == p1 {
            assert(s.take(2) =~= seq![p0, p1]);
        } else {
            assert(s.take(2) != seq![p0, p1]) by {
                if s.take(2) == seq![p0, p1] {
                    assert(s.take(2)[0] == p0 && s.take(2)[1] == p1);
                }
            }
        }
    }
}

/// Escaping works character by character.
proof fn lemma_escape_cons(t: Seq<char>)
    requires
        t.len() > 0,
    ensures
        escape_token(t) == esc_char(t[0]) + escape_token(t.drop_first()),
{
    let tilde = seq!['~'];
    let tilde0 = seq!['~', '0'];
    let slash = seq!['/'];
    let tilde1 = seq!['~', '1'];
    let inner_rest = replace_all(t.drop_first(), tilde, tilde0);
    lemma_ra1_unfold(t, '~', tilde0);
    let inner = replace_all(t, tilde, tilde0);
    if t[0] == '~' {
        assert(inner == tilde0 + inner_rest);
        assert(inner.len() >= 2);
        lemma_ra1_unfold(inner, '/', tilde1);
        assert(inner[0] == '~');
        assert(inner.drop_first() =~= seq!['0'] + inner_rest);
        lemma_ra1_unfold(inner.drop_first(), '/', tilde1);
        assert(inner.drop_first()[0] == '0');
        assert(inner.drop_first().drop_first() =~= inner_rest);
        assert(escape_token(t) =~= seq!['~', '0'] + escape_token(t.drop_first()));
    } else if t[0] == '/' {
        assert(inner == seq!['/'] + inner_rest);
        lemma_ra1_unfold(inner, '/', tilde1);
        assert(inner[0] == '/');
        assert(inner.drop_first() =~= inner_rest);
        assert(escape_token(t) =~= seq!['~', '1'] + escape_token(t.drop_first()));
    } else {
        assert(inner == seq![t[0]] + inner_rest);
        lemma_ra1_unfold(inner, '/', tilde1);
        assert(inner[0] == t[0]);
        assert(inner.drop_first() =~= inner_rest);
        assert(escape_token(t) =~= seq![t[0]] + escape_token(t.drop_first()));
    }
}

/// An escaped key never contains a raw `/`.
pub proof fn lemma_escape_no_slash(t: Seq<char>)
    ensures
        forall|j: int| 0 <= j < escape_token(t).len() ==> escape_token(t)[j] != '/',
    decreases t.len(),
{
    if t.len() == 0 {
        assert(escape_token(t) =~= Seq::<char>::empty());
    } else {
        lemma_escape_cons(t);
        lemma_escape_no_slash(t.drop_first());
        let e = escape_token(t);
        let head = esc_char(t[0]);
        let rest = escape_token(t.drop_first());
        assert forall|j: int| 0 <= j < e.len() implies e[j] != '/' by {
            if j < head.len() {
                assert(e[j] == head[j]);
            } else {
                assert(e[j] == rest[j - head.len()]);
            }
        }
    }
}

/// Unescaping undoes escaping: `~` and `/` survive a round trip through a
/// pointer token.
pub proof fn lemma_unescape_escape(t: Seq<char>)
    ensures
        unescape_token(escape_token(t)) == t,
    decreases t.len(),
{
    let pat1 = seq!['~', '1'];
    let slash = seq!['/'];
    let pat0 = seq!['~', '0'];
    let tilde = seq!['~'];
    if t.len() == 0 {
        assert(escape_token(t) =~= Seq::<char>::empty());
        assert(unescape_token(Seq::<char>::empty()) =~= Seq::<char>::empty());
    } else {
        lemma_escape_cons(t);
        lemma_unescape_escape(t.drop_first());
        let e = escape_token(t);
        let erest = escape_token(t.drop_first());
        let u1rest = replace_all(erest, pat1, slash);
        if t[0] == '~' {
            assert(e =~= seq!['~', '0'] + erest);
            lemma_ra2_unfold(e, '~', '1', slash);
            assert(e[1] == '0');
            assert(e.drop_first() =~= seq!['0'] + erest);
            lemma_ra2_unfold(e.drop_first(), '~', '1', slash);
            assert(e.drop_first().drop_first() =~= erest);
            let u1 = replace_all(e, pat1, slash);
            assert(u1 == seq!['~'] + (seq!['0'] + u1rest));
            assert(u1 =~= seq!['~', '0'] + u1rest);
            lemma_ra2_unfold(u1, '~', '0', tilde);
            assert(u1.skip(2) =~= u1rest);
            assert(unescape_token(e) == tilde + unescape_token(erest));
            assert(unescape_token(e) =~= seq![t[0]] + t.drop_first());
            assert(seq![t[0]] + t.drop_first() =~= t);
        } else if t[0] == '/' {
            assert(e =~= seq!['~', '1'] + erest);
            lemma_ra2_unfold(e, '~', '1', slash);
            assert(e.skip(2) =~= erest);
            let u1 = replace_all(e, pat1, slash);
            assert(u1 == slash + u1rest);
            lemma_ra2_unfold(u1, '~', '0', tilde);
            assert(u1[0] == '/');
            assert(u1.drop_first() =~= u1rest);
            assert(unescape_token(e) == slash + unescape_token(erest));
            assert(unescape_token(e) =~= seq![t[0]] + t.drop_first());
            assert(seq![t[0]] + t.drop_first() =~= t);
        } else {
            assert(e =~= seq![t[0]] + erest);
            lemma_ra2_unfold(e, '~', '1', slash);
            assert(e[0] == t[0] && t[0] != '~');
            assert(e.drop_first() =~= erest);
            let u1 = replace_all(e, pat1, slash);
            assert(u1 == seq![t[0]] + u1rest);
            lemma_ra2_unfold(u1, '~', '0', tilde);
            assert(u1[0] == t[0] && t[0] != '~');
            assert(u1.drop_first() =~= u1rest);
            assert(unescape_token(e) == seq![t[0]] + unescape_token(erest));
            assert(unescape_token(e) =~= seq![t[0]] + t.drop_first());
            assert(seq![t[0]] + t.drop_first() =~= t);
        }
    }
}

/// The empty pointer names the value itself.
pub proof fn lemma_pointer_empty(v: ValueV)
    ensures
        ptr_lookup(v, Seq::<char>::empty()) == Some(v),
{
}

/// Looking up `/<k1>/<k2>` (with each key escaped) inside the mapping
/// `{k1: {k2: x}}` yields `x`, for any keys and any payload.
pub proof fn lemma_pointer_two_levels(k1: Seq<char>, k2: Seq<char>, x: ValueV)
    ensures
        ptr_lookup(
            ValueV::Object(seq![(k1, ValueV::Object(seq![(k2, x)]))]),
            seq!['/'] + escape_token(k1) + seq!['/'] + escape_token(k2),
        ) == Some(x),
{
    let e1 = escape_token(k1);
    let e2 = escape_token(k2);
    let inner = ValueV::Object(seq![(k2, x)]);
    let outer = ValueV::Object(seq![(k1, inner)]);
    let ptr = seq!['/'] + e1 + seq!['/'] + e2;
    assert(ptr[0] == '/');
    assert(ptr.len() > 0);
    let s = ptr.drop_first();
    assert(s =~= e1 + seq!['/'] + e2);
    lemma_escape_no_slash(k1);
    lemma_escape_no_slash(k2);
    // the first slash in `s` closes the first token, which is escape(k1)
    assert forall|j: int| 0 <= j < e1.len() implies s[j] != '/' by {
        assert(s[j] == e1[j]);
    }
    assert(s[e1.len() as int] == '/');
    lemma_index_of_ch_unique(s, '/', e1.len() as int);
    let k = index_of_ch(s, '/');
    assert(k == e1.len() as int);
    assert(s.take(k) =~= e1);
    lemma_unescape_escape(k1);
    assert(obj_get(seq![(k1, inner)], k1) == Some(inner));
    assert(ptr_step(outer, k1) == Some(inner));
    assert(k < s.len());
    let s2 = s.skip(k + 1);
    assert(s2 =~= e2);
    // the second token runs to the end of the pointer
    assert forall|j: int| 0 <= j < s2.len() implies s2[j] != '/' by {
        assert(s2[j] == e2[j]);
    }
    lemma_index_of_ch_unique(s2, '/', s2.len() as int);
    let k2i = index_of_ch(s2, '/');
    assert(k2i == s2.len() as int);
    assert(s2.take(k2i) =~= e2);
    lemma_unescape_escape(k2);
    assert(obj_get(seq![(k2, x)], k2) == Some(x));
    assert(ptr_step(inner, k2) == Some(x));
    assert(ptr_lookup_from(inner, s2) == Some(x));
    assert(ptr_lookup_from(outer, s) == Some(x));
}

/// The position of the first entry carrying `key`, or the length when no
/// entry does.
pub open spec fn obj_index_of(entries: Seq<(Seq<char>, ValueV)>, key: Seq<char>) -> int
    decreases entries.len(),
{
    if entries.len() == 0 {
        0
    } else if entries[0].0 == key {
        0
    } else {
        1 + obj_index_of(entries.drop_first(), key)
    }
}

/// What [`obj_index_of`] returns: an in-range position carrying `key` with
/// no earlier occurrence, or the length; and how it relates to [`obj_get`].
pub proof fn lemma_obj_index_of(entries: Seq<(Seq<char>, ValueV)>, key: Seq<char>)
    ensures
        0 <= obj_index_of(entries, key) <= entries.len(),
        obj_index_of(entries, key) < entries.len() ==> entries[obj_index_of(entries, key)].0 == key
            && obj_get(entries, key) == Some(entries[obj_index_of(entries, key)].1),
        forall|j: int| 0 <= j < obj_index_of(entries, key) ==> entries[j].0 != key,
        obj_index_of(entries, key) == entries.len() ==> obj_get(entries, key) is None,
    decreases entries.len(),
{
    if entries.len() > 0 && entries[0].0 != key {
        lemma_obj_index_of(entries.drop_first(), key);
        let k = obj_index_of(entries, key);
        assert forall|j: int| 0 <= j < k implies entries[j].0 != key by {
            if j > 0 {
                assert(entries.drop_first()[j - 1].0 != key);
            }
        }
    }
}

/// A position carrying `key` with no earlier occurrence is what
/// [`obj_index_of`] finds; without `key` it is the length.
pub proof fn lemma_obj_index_of_unique(entries: Seq<(Seq<char>, ValueV)>, key: Seq<char>, i: int)
    requires
        0 <= i <= entries.len(),
        i < entries.len() ==> entries[i].0 == key,
        forall|j: int| 0 <= j < i ==> entries[j].0 != key,
    ensures
        i < entries.len() ==> obj_index_of(entries, key) == i,
        i == entries.len() ==> obj_index_of(entries, key) == entries.len(),
    decreases entries.len(),
{
    if entries.len() > 0 && entries[0].0 != key {
        assert forall|j: int| 0 <= j < i - 1 implies entries.drop_first()[j].0 != key by {
            assert(entries[j + 1].0 != key);
        }
        lemma_obj_index_of_unique(entries.drop_first(), key, if i >= 1 {
            i - 1
        } else {
            0
        });
    }
}

/// Writes `nv` into the slot the pointer rest `s` names, following the same
/// traversal as a lookup; nothing is written, and no path is created, when
/// a segment misses.
pub open spec fn ptr_set_from(v: ValueV, s: Seq<char>, nv: ValueV) -> Option<ValueV>
    decreases s.len(),
    via ptr_set_from_decreases
{
    let k = index_of_ch(s, '/');
    let token = unescape_token(s.take(k));
    match v {
        ValueV::Object(entries) => {
            let i = obj_index_of(entries, token);
            if i >= entries.len() {
                None
            } else if k >= s.len() {
                Some(ValueV::Object(entries.update(i, (token, nv))))
            } else {
                match ptr_set_from(entries[i].1, s.skip(k + 1), nv) {
                    Some(c) => Some(ValueV::Object(entries.update(i, (token, c)))),
                    None => None,
                }
            }
        },
        ValueV::Array(items) => match parse_index_spec(token) {
            Some(idx) => if idx < items.len() {
                if k >= s.len() {
                    Some(ValueV::Array(items.update(idx, nv)))
                } else {
                    match ptr_set_from(items[idx], s.skip(k + 1), nv) {
                        Some(c) => Some(ValueV::Array(items.update(idx, c))),
                        None => None,
                    }
                }
            } else {
                None
            },
            None => None,
        },
        _ => None,
    }
}

#[via_fn]
proof fn ptr_set_from_decreases(v: ValueV, s: Seq<char>, nv: ValueV) {
    lemma_index_of_ch(s, '/');
}

/// Writes `nv` into the slot a pointer names: the empty pointer replaces
/// the whole value, any other pointer must begin with `/` and descends as a
/// lookup does.
pub open spec fn ptr_set(v: ValueV, pointer: Seq<char>, nv: ValueV) -> Option<ValueV> {
    if pointer.len() == 0 {
        Some(nv)
    } else if pointer[0] != '/' {
        None
    } else {
        ptr_set_from(v, pointer.drop_first(), nv)
    }
}

/// Pointer mutation descends exactly as lookup does: a slot can be written
/// precisely where a lookup finds a value, whatever is written.
pub proof fn lemma_ptr_set_where_lookup(v: ValueV, pointer: Seq<char>, nv: ValueV)
    ensures
        (ptr_set(v, pointer, nv) is Some) == (ptr_lookup(v, pointer) is Some),
{
    if pointer.len() > 0 && pointer[0] == '/' {
        lemma_ptr_set_from_where_lookup(v, pointer.drop_first(), nv);
    }
}

proof fn lemma_ptr_set_from_where_lookup(v: ValueV, s: Seq<char>, nv: ValueV)
    ensures
        (ptr_set_from(v, s, nv) is Some) == (ptr_lookup_from(v, s) is Some),
    decreases s.len(),
{
    lemma_index_of_ch(s, '/');
    let k = index_of_ch(s, '/');
    let token = unescape_token(s.take(k));
    match v {
        ValueV::Object(entries) => {
            lemma_obj_index_of(entries, token);
            let i = obj_index_of(entries, token);
            if i < entries.len() && k < s.len() {
                lemma_ptr_set_from_where_lookup(entries[i].1, s.skip(k + 1), nv);
            }
        },
        ValueV::Array(items) => {
            match parse_index_spec(token) {
                Some(idx) => {
                    if idx < items.len() && k < s.len() {
                        lemma_ptr_set_from_where_lookup(items[idx], s.skip(k + 1), nv);
                    }
                },
                None => {},
            }
        },
        _ => {},
    }
}

/// Rewrites the slot that the pointer rest beginning at `p` names.  The
/// flag reports whether the slot existed; when it did not, the value comes
/// back unchanged.
fn set_owned(v: Value, toks: &Vec<char>, p: usize, nv: Value) -> (res: (Value, bool))
    requires
        p <= toks@.len(),
    ensures
        res.1 == (ptr_set_from(v@, toks@.skip(p as int), nv@) is Some),
        res.1 ==> res.0@ == ptr_set_from(v@, toks@.skip(p as int), nv@)->Some_0,
        !res.1 ==> res.0@ == v@,
    decreases toks@.len() - p,
{
    let ghost rest = toks@.skip(p as int);
    let n = toks.len();
    let mut q: usize = p;
    while q < n && toks[q] != '/'
        invariant
            p <= q <= n,
            n == toks@.len(),
            forall|j: int| p <= j < q ==> toks@[j] != '/',
        decreases n - q,
    {
        q = q + 1;
    }
    proof {
        assert forall|j: int| 0 <= j < q - p implies rest[j] != '/' by {
            assert(rest[j] == toks@[p + j]);
        }
        if q < n {
            assert(rest[q - p] == toks@[q as int]);
        }
        lemma_index_of_ch_unique(rest, '/', q - p);
        assert(index_of_ch(rest, '/') == q - p);
    }
    let raw = subrange_chars(toks, p, q);
    proof {
        assert(raw@ =~= rest.take(q - p));
    }
    let token = unescape_chars(&raw);
    match v {
        Value::Object(mut entries) => {
            let ghost entries_model = entries.deep_view();
            proof {
                crate::value::lemma_object_model(Value::Object(entries));
            }
            let m = entries.len();
            let mut i: usize = 0;
            while i < m
                invariant
                    i <= m,
                    m == entries@.len(),
                    entries_model == entries.deep_view(),
                    v@ == ValueV::Object(entries_model),
                    rest == toks@.skip(p as int),
                    p <= q <= n,
                    n == toks@.len(),
                    index_of_ch(rest, '/') == q - p,
                    token@ == unescape_token(rest.take(q - p)),
                    forall|j: int| 0 <= j < i ==> (#[trigger] entries_model[j]).0 != token@,
                decreases m - i,
            {
                let hit = crate::text::string_eq_chars(entries[i].0.as_str(), &token);
                if hit {
                    proof {
                        lemma_obj_index_of_unique(entries_model, token@, i as int);
                    }
                    if q == n {
                        let slot = &mut entries[i];
                        slot.1 = nv;
                        let out = Value::Object(entries);
                        proof {
                            crate::value::lemma_object_model(out);
                            assert(out->Object_0.deep_view() =~= entries_model.update(
                                i as int,
                                (token@, nv@),
                            ));
                        }
                        return (out, true);
                    }
                    let mut child = Value::Null;
                    let slot = &mut entries[i];
                    core::mem::swap(&mut slot.1, &mut child);
                    let ghost child_model = child@;
                    proof {
                        assert(child_model == entries_model[i as int].1);
                    }
                    let (child2, ok) = set_owned(child, toks, q + 1, nv);
                    let slot = &mut entries[i];
                    slot.1 = child2;
                    let out = Value::Object(entries);
                    proof {
                        crate::value::lemma_object_model(out);
                        assert(rest.skip(q - p + 1) =~= toks@.skip(q as int + 1));
                        if ok {
                            assert(out->Object_0.deep_view() =~= entries_model.update(
                                i as int,
                                (token@, ptr_set_from(child_model, toks@.skip(q as int + 1), nv@)->Some_0),
                            ));
                        } else {
                            assert(out->Object_0.deep_view() =~= entries_model);
                        }
                    }
                    return (out, ok);
                }
                proof {
                    assert(entries_model[i as int].0 != token@);
                }
                i = i + 1;
            }
            proof {
                lemma_obj_index_of_unique(entries_model, token@, m as int);
            }
            let out = Value::Object(entries);
            proof {
                crate::value::lemma_object_model(out);
                assert(out->Object_0.deep_view() =~= entries_model);
            }
            (out, false)
        },
        Value::Array(mut items) => {
            let ghost items_model = items.deep_view();
            proof {
                crate::value::lemma_array_model(Value::Array(items));
            }
            match parse_index_chars(&token) {
                Some(idx) => {
                    if idx < items.len() {
                        if q == n {
                            let slot = &mut items[idx];
                            *slot = nv;
                            let out = Value::Array(items);
                            proof {
                                crate::value::lemma_array_model(out);
                                assert(out->Array_0.deep_view() =~= items_model.update(
                                    idx as int,
                                    nv@,
                                ));
                            }
                            return (out, true);
                        }
                        let mut child = Value::Null;
                        let slot = &mut items[idx];
                        core::mem::swap(slot, &mut child);
                        let ghost child_model = child@;
                        proof {
                            assert(child_model == items_model[idx as int]);
                        }
                        let (child2, ok) = set_owned(child, toks, q + 1, nv);
                        let slot = &mut items[idx];
                        *slot = child2;
                        let out = Value::Array(items);
                        proof {
                            crate::value::lemma_array_model(out);
                            assert(rest.skip(q - p + 1) =~= toks@.skip(q as int + 1));
                            if ok {
                                assert(out->Array_0.deep_view() =~= items_model.update(
                                    idx as int,
                                    ptr_set_from(child_model, toks@.skip(q as int + 1), nv@)->Some_0,
                                ));
                            } else {
                                assert(out->Array_0.deep_view() =~= items_model);
                            }
                        }
                        return (out, ok);
                    }
                    let out = Value::Array(items);
                    proof {
                        crate::value::lemma_array_model(out);
                        assert(out->Array_0.deep_view() =~= items_model);
                    }
                    (out, false)
                },
                None => {
                    let out = Value::Array(items);
                    proof {
                        crate::value::lemma_array_model(out);
                        assert(out->Array_0.deep_view() =~= items_model);
                    }
                    (out, false)
                },
            }
        },
        other => (other, false),
    }
}

impl Value {
    /// Writes `new_value` into the slot a pointer names, following the same
    /// traversal as a lookup: the empty pointer replaces the whole value,
    /// and a pointer whose path misses writes nothing — intermediate paths
    /// are not created.  Reports whether the write happened.
    pub fn pointer_set(&mut self, pointer: &str, new_value: Value) -> (r: bool)
        ensures
            r == (ptr_set(old(self)@, pointer@, new_value@) is Some),
            r ==> final(self)@ == ptr_set(old(self)@, pointer@, new_value@)->Some_0,
            !r ==> final(self)@ == old(self)@,
    {
        let toks = chars_of(pointer);
        if toks.len() == 0 {
            *self = new_value;
            return true;
        }
        if toks[0] != '/' {
            return false;
        }
        let mut owned = Value::Null;
        core::mem::swap(self, &mut owned);
        proof {
            assert(toks@.skip(1) =~= pointer@.drop_first());
        }
        let (result, ok) = set_owned(owned, &toks, 1, new_value);
        *self = result;
        ok
    }
}

/// Parses a decimal array index: no leading `+`, a leading `0` only for the
/// single digit `0`.
pub fn parse_index(s: &str) -> (r: Option<usize>)
    ensures
        match r {
            Some(u) => parse_index_spec(s@) == Some(u as int),
            None => parse_index_spec(s@) is None,
        },
{
    let chars = chars_of(s);
    parse_index_chars(&chars)
}

} // verus!

//! Template substitution: occurrences of `%{<pointer>}` in a template are
//! replaced by the string value found at that JSON pointer within an
//! event's payload.
//!
//! A capture opens at `%{`, holds at least one character, none of which is
//! a line break, and closes at the first `}` after it.  Substitution is
//! atomic: if any capture fails to name a string value, the whole
//! substitution reports the first failing pointer and yields no partial
//! text.

use vstd::prelude::*;
use vstd::string::StringExecFns;
use crate::event::Event;
use crate::pointer::ptr_lookup;
use crate::json::json_of;
use crate::json::json_renderable;
use crate::text::index_of_ch;
use crate::text::lemma_index_of_ch;
use crate::text::lemma_index_of_ch_unique;
use crate::text::chars_of;
use crate::text::string_from_chars;
use crate::value::ValueV;

verus! {

/// Where the capture at the front of `t` closes: the first `}` no earlier
/// than position 3, so that the path holds at least one character.
pub open spec fn capture_close(t: Seq<char>) -> int {
    3 + index_of_ch(t.skip(3), '}')
}

/// Whether `t` begins with a complete capture: `%{`, a non-empty path
/// without line breaks, and a closing `}`.
pub open spec fn capture_at_start(t: Seq<char>) -> bool {
    &&& t.len() >= 4
    &&& t[0] == '%'
    &&& t[1] == '{'
    &&& capture_close(t) < t.len()
    &&& forall|j: int| 2 <= j < capture_close(t) ==> t[j] != '\n'
}

/// The substituted text of a template against a payload, or the first
/// pointer that did not resolve to a string value.
pub open spec fn subst(t: Seq<char>, v: ValueV) -> Result<Seq<char>, Seq<char>>
    decreases t.len(),
    via subst_decreases
{
    if t.len() == 0 {
        Ok(Seq::empty())
    } else if capture_at_start(t) {
        let c = capture_close(t);
        let path = t.subrange(2, c);
        match ptr_lookup(v, path) {
            Some(ValueV::String(s)) => match subst(t.skip(c + 1), v) {
                Ok(rest) => Ok(s + rest),
                Err(p) => Err(p),
            },
            _ => Err(path),
        }
    } else {
        match subst(t.drop_first(), v) {
            Ok(rest) => Ok(seq![t[0]] + rest),
            Err(p) => Err(p),
        }
    }
}

#[via_fn]
proof fn subst_decreases(t: Seq<char>, v: ValueV) {
    if t.len() > 0 && capture_at_start(t) {
        lemma_index_of_ch(t.skip(3), '}');
    }
}

/// The pointers of the captures of a template, in order of appearance.
pub open spec fn capture_paths(t: Seq<char>) -> Seq<Seq<char>>
    decreases t.len(),
    via capture_paths_decreases
{
    if t.len() == 0 {
        Seq::empty()
    } else if capture_at_start(t) {
        seq![t.subrange(2, capture_close(t))] + capture_paths(t.skip(capture_close(t) + 1))
    } else {
        capture_paths(t.drop_first())
    }
}

#[via_fn]
proof fn capture_paths_decreases(t: Seq<char>) {
    if t.len() > 0 && capture_at_start(t) {
        lemma_index_of_ch(t.skip(3), '}');
    }
}

/// A template without captures substitutes to itself, whatever the payload.
pub proof fn lemma_substitute_identity(t: Seq<char>, v: ValueV)
    requires
        forall|j: int| 0 <= j < t.len() - 1 ==> !((#[trigger] t[j]) == '%' && t[j + 1] == '{'),
    ensures
        subst(t, v) == Ok::<Seq<char>, Seq<char>>(t),
    decreases t.len(),
{
    if t.len() == 0 {
        assert(t =~= Seq::<char>::empty());
    } else {
        if t.len() >= 4 {
            assert(!(t[0] == '%' && t[1int] == '{'));
        }
        assert(!capture_at_start(t));
        assert forall|j: int|
            0 <= j < t.drop_first().len() - 1 implies !((#[trigger] t.drop_first()[j]) == '%'
            && t.drop_first()[j + 1] == '{') by {
            assert(t[j + 1] == t.drop_first()[j]);
            assert(t[j + 2] == t.drop_first()[j + 1]);
        }
        lemma_substitute_identity(t.drop_first(), v);
        let tail = subst(t.drop_first(), v);
        assert(tail == Ok::<Seq<char>, Seq<char>>(t.drop_first()));
        assert(subst(t, v) == Ok::<Seq<char>, Seq<char>>(seq![t[0]] + t.drop_first()));
        assert(seq![t[0]] + t.drop_first() =~= t);
    }
}

/// Substitution is atomic: when any capture's pointer does not resolve to a
/// string value, the whole substitution is an error — never a partially
/// substituted text.
pub proof fn lemma_substitute_atomic(t: Seq<char>, v: ValueV, k: int)
    requires
        0 <= k < capture_paths(t).len(),
        !(ptr_lookup(v, capture_paths(t)[k]) matches Some(ValueV::String(_))),
    ensures
        subst(t, v) is Err,
    decreases t.len(),
{
    if capture_at_start(t) {
        lemma_index_of_ch(t.skip(3), '}');
        let c = capture_close(t);
        let path = t.subrange(2, c);
        match ptr_lookup(v, path) {
            Some(pv) => {
                if pv is String {
                    assert(capture_paths(t)[0] == path);
                    assert(k > 0);
                    assert(capture_paths(t)[k] == capture_paths(t.skip(c + 1))[k - 1]);
                    lemma_substitute_atomic(t.skip(c + 1), v, k - 1);
                }
            },
            None => {},
        }
    } else {
        assert(t.len() > 0);
        lemma_substitute_atomic(t.drop_first(), v, k);
    }
}

/// The reason a substitution reports for a pointer that did not resolve to
/// a string value: the pointer twice, then the event's payload rendered as
/// JSON — or a fixed marker for a payload the writer refuses.
pub open spec fn template_error_reason(path: Seq<char>, v: ValueV) -> Seq<char> {
    "no "@ + path + " field or "@ + path + " is not string, event: "@ + (if json_renderable(v) {
        json_of(v)
    } else {
        "<non-serializable event>"@
    })
}

/// Builds the failure reason for one pointer.
fn build_error_reason(path: &Vec<char>, event: &Event) -> (r: String)
    ensures
        r@ == template_error_reason(path@, event.value@),
{
    let path_str = string_from_chars(path);
    let mut reason = String::new();
    reason.append("no ");
    reason.append(path_str.as_str());
    reason.append(" field or ");
    reason.append(path_str.as_str());
    reason.append(" is not string, event: ");
    match event.value.to_json() {
        Some(rendered) => {
            reason.append(rendered.as_str());
        },
        None => {
            reason.append("<non-serializable event>");
        },
    }
    reason
}

/// Replaces each `%{<pointer>}` capture in `template` by the string value
/// found at that pointer within the event's payload.  When a capture's
/// pointer resolves to anything but a string, the whole substitution fails
/// with a reason naming the first such pointer.
pub fn substitute_with_event(template: &str, event: &Event) -> (r: Result<String, String>)
    ensures
        r matches Ok(s) ==> subst(template@, event.value@) == Ok::<Seq<char>, Seq<char>>(s@),
        r matches Err(e) ==> (subst(template@, event.value@) matches Err(p) && e@
            == template_error_reason(p, event.value@)),
{
    let t = chars_of(template);
    let n = t.len();
    let mut out: Vec<char> = Vec::new();
    let mut i: usize = 0;
    proof {
        assert(t@.skip(0) =~= t@);
    }
    while i < n
        invariant
            i <= n,
            n == t@.len(),
            t@ == template@,
            ({
                let tail = subst(t@.skip(i as int), event.value@);
                subst(t@, event.value@) == (match tail {
                    Ok(rest) => Ok::<Seq<char>, Seq<char>>(out@ + rest),
                    Err(p) => Err::<Seq<char>, Seq<char>>(p),
                })
            }),
        decreases n - i,
    {
        let ghost rest = t@.skip(i as int);
        let mut capture = false;
        let mut q: usize = i;
        if t[i] == '%' && i + 1 < n && t[i + 1] == '{' && n - i > 3 {
            // look for the closing brace, no earlier than one character
            // after the opening
            q = i + 3;
            while q < n && t[q] != '}'
                invariant
                    i + 3 <= q <= n,
                    n == t@.len(),
                    forall|j: int| i + 3 <= j < q ==> t@[j] != '}',
                decreases n - q,
            {
                q = q + 1;
            }
            if q < n {
                capture = true;
                // a capture must not span a line break
                let mut j: usize = i + 2;
                while j < q
                    invariant
                        i + 2 <= j <= q,
                        q < n,
                        n == t@.len(),
                        capture ==> forall|p: int| i + 2 <= p < j ==> t@[p] != '\n',
                        !capture ==> exists|p: int| i + 2 <= p < j && t@[p] == '\n',
                    decreases q - j,
                {
                    if t[j] == '\n' {
                        capture = false;
                    }
                    j = j + 1;
                }
            }
        }
        proof {
            if i + 3 < n {
                assert(rest.skip(3) =~= t@.skip(i as int + 3));
            }
        }
        if capture {
            proof {
                assert forall|p: int| 0 <= p < q - i - 3 implies rest.skip(3)[p] != '}' by {
                    assert(rest.skip(3)[p] == t@[i + 3 + p]);
                }
                assert(rest.skip(3)[q - i - 3] == t@[q as int]);
                lemma_index_of_ch_unique(rest.skip(3), '}', q - i - 3);
                assert(capture_close(rest) == q - i);
                assert forall|j: int| 2 <= j < q - i implies rest[j] != '\n' by {
                    assert(rest[j] == t@[i + j]);
                }
                assert(rest[0] == t@[i as int] && rest[1] == t@[i as int + 1]);
                assert(capture_at_start(rest));
            }
            let path = crate::pointer::subrange_chars(&t, i + 2, q);
            proof {
                assert(path@ =~= rest.subrange(2, q - i));
            }
            match event.value.pointer_chars(&path) {
                Some(found) => {
                    match found.as_str() {
                        Some(s) => {
                            let schars = chars_of(s);
                            let m = schars.len();
                            let mut p: usize = 0;
                            let ghost out_before = out@;
                            while p < m
                                invariant
                                    p <= m,
                                    m == schars@.len(),
                                    out@ == out_before + schars@.take(p as int),
                                decreases m - p,
                            {
                                out.push(schars[p]);
                                proof {
                                    assert(out@ =~= out_before + schars@.take(p as int + 1));
                                }
                                p = p + 1;
                            }
                            proof {
                                assert(schars@.take(m as int) =~= schars@);
                                assert(rest.skip(q - i + 1) =~= t@.skip(q as int + 1));
                                assert(out@ =~= out_before + schars@);
                                let tail_new = subst(t@.skip(q as int + 1), event.value@);
                                assert(subst(rest, event.value@) == (match tail_new {
                                    Ok(r2) => Ok::<Seq<char>, Seq<char>>(schars@ + r2),
                                    Err(p2) => Err::<Seq<char>, Seq<char>>(p2),
                                }));
                                if tail_new is Ok {
                                    let r2 = tail_new->Ok_0;
                                    assert(out_before + (schars@ + r2) =~= out@ + r2);
                                }
                            }
                            i = q + 1;
                        },
                        None => {
                            let reason = build_error_reason(&path, event);
                            return Err(reason);
                        },
                    }
                },
                None => {
                    let reason = build_error_reason(&path, event);
                    return Err(reason);
                },
            }
        } else {
            proof {
                if rest.len() >= 4 && rest[0] == '%' && rest[1] == '{' {
                    if i + 3 < n {
                        lemma_index_of_ch(rest.skip(3), '}');
                        if q >= n {
                            // no closing brace was found
                            assert forall|p: int| 0 <= p < rest.skip(3).len() implies rest.skip(
                                3,
                            )[p] != '}' by {
                                assert(rest.skip(3)[p] == t@[i + 3 + p]);
                            }
                            lemma_index_of_ch_unique(rest.skip(3), '}', rest.skip(3).len() as int);
                            assert(!capture_at_start(rest));
                        } else {
                            // a line break sits inside the would-be capture
                            assert forall|p: int| 0 <= p < q - i - 3 implies rest.skip(3)[p]
                                != '}' by {
                                assert(rest.skip(3)[p] == t@[i + 3 + p]);
                            }
                            assert(rest.skip(3)[q - i - 3] == t@[q as int]);
                            lemma_index_of_ch_unique(rest.skip(3), '}', q - i - 3);
                            assert(capture_close(rest) == q - i);
                            let pnl = choose|p: int| i + 2 <= p < q && t@[p] == '\n';
                            assert(rest[pnl - i] == '\n');
                            assert(!capture_at_start(rest));
                        }
                    } else {
                        // the template ends before any closing brace could sit
                        assert(rest.len() <= 4);
                        if rest.len() == 4 {
                            assert(rest.skip(3) =~= seq![t@[i as int + 3]]);
                            lemma_index_of_ch(rest.skip(3), '}');
                            assert(capture_close(rest) >= 3);
                            assert(!capture_at_start(rest));
                        }
                    }
                }
                assert(!capture_at_start(rest));
                assert(rest.drop_first() =~= t@.skip(i as int + 1));
            }
            let ghost out_before = out@;
            out.push(t[i]);
            proof {
                let tail_new = subst(t@.skip(i as int + 1), event.value@);
                assert(subst(rest, event.value@) == (match tail_new {
                    Ok(r2) => Ok::<Seq<char>, Seq<char>>(seq![rest[0]] + r2),
                    Err(p2) => Err::<Seq<char>, Seq<char>>(p2),
                }));
                if tail_new is Ok {
                    let r2 = tail_new->Ok_0;
                    assert(rest[0] == t@[i as int]);
                    assert(out_before + (seq![rest[0]] + r2) =~= out@ + r2);
                }
            }
            i = i + 1;
        }
    }
    proof {
        assert(t@.skip(n as int) =~= Seq::<char>::empty());
    }
    Ok(string_from_chars(&out))
}

} // verus!

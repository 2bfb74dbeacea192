//! Verified JSON serialization of [`Value`].
//!
//! The writer renders every variant except `Float`: a float payload has no
//! canonical decimal text the library can state, so rendering one is left
//! to the embedding application.  Mappings are rendered in their stored
//! (key-sorted) order, which makes the output deterministic.

use vstd::prelude::*;
use crate::value::Value;
use crate::value::ValueV;
use crate::value::LogLevelV;
use crate::value::LogLevel;
use crate::text::string_from_chars;
use crate::text::chars_of;

verus! {

broadcast use vstd::seq::axiom_seq_subrange_decreases;

/// The decimal digit `d` as a character.
pub open spec fn digit_char(d: int) -> char {
    if d == 0 {
        '0'
    } else if d == 1 {
        '1'
    } else if d == 2 {
        '2'
    } else if d == 3 {
        '3'
    } else if d == 4 {
        '4'
    } else if d == 5 {
        '5'
    } else if d == 6 {
        '6'
    } else if d == 7 {
        '7'
    } else if d == 8 {
        '8'
    } else {
        '9'
    }
}

/// The hexadecimal digit `d` as a lowercase character.
pub open spec fn hex_char(d: int) -> char {
    if d < 10 {
        digit_char(d)
    } else if d == 10 {
        'a'
    } else if d == 11 {
        'b'
    } else if d == 12 {
        'c'
    } else if d == 13 {
        'd'
    } else if d == 14 {
        'e'
    } else {
        'f'
    }
}

/// The decimal text of a number that is not negative.
pub open spec fn dec_digits(n: int) -> Seq<char>
    decreases n,
{
    if n < 10 {
        seq![digit_char(n)]
    } else {
        dec_digits(n / 10) + seq![digit_char(n % 10)]
    }
}

/// The decimal text of a signed number.
pub open spec fn dec_int(i: int) -> Seq<char> {
    if i < 0 {
        seq!['-'] + dec_digits(-i)
    } else {
        dec_digits(i)
    }
}

/// What one character contributes to a JSON string body, following the
/// escaping rules JSON requires: quote and backslash are escaped, control
/// characters use their short escapes or a `\u00..` form, and everything
/// else stands for itself.
pub open spec fn esc_json_char(c: char) -> Seq<char> {
    if c == '"' {
        seq!['\\', '"']
    } else if c == '\\' {
        seq!['\\', '\\']
    } else if c == '\u{8}' {
        seq!['\\', 'b']
    } else if c == '\u{9}' {
        seq!['\\', 't']
    } else if c == '\u{a}' {
        seq!['\\', 'n']
    } else if c == '\u{c}' {
        seq!['\\', 'f']
    } else if c == '\u{d}' {
        seq!['\\', 'r']
    } else if (c as u32) < 0x20 {
        seq!['\\', 'u', '0', '0', hex_char(c as int / 16), hex_char(c as int % 16)]
    } else {
        seq![c]
    }
}

/// The escaped body of a JSON string.
pub open spec fn json_string_body(s: Seq<char>) -> Seq<char>
    decreases s.len(),
{
    if s.len() == 0 {
        Seq::empty()
    } else {
        json_string_body(s.drop_last()) + esc_json_char(s.last())
    }
}

/// A JSON string: quoted, escaped text.
pub open spec fn json_string(s: Seq<char>) -> Seq<char> {
    seq!['"'] + json_string_body(s) + seq!['"']
}

/// The timestamp text chrono writes for a Unix second count, UTC, second
/// precision (RFC 3339 with a `Z` suffix); empty outside chrono's range.
pub uninterp spec fn rfc3339_utc(secs: int) -> Seq<char>;

/// Relies on chrono's `TimeZone::timestamp_opt` and
/// `DateTime::to_rfc3339_opts` with `SecondsFormat::AutoSi` and a `Z`
/// suffix: the text depends on the second count alone and is what chrono's
/// serde support writes for a whole-second timestamp.  Outside chrono's
/// representable range the result is empty.
#[verifier::external_body]
fn format_rfc3339_utc(secs: i64) -> (r: String)
    ensures
        r@ == rfc3339_utc(secs as int),
{
    match chrono::TimeZone::timestamp_opt(&chrono::Utc, secs, 0) {
        chrono::LocalResult::Single(dt) => dt.to_rfc3339_opts(chrono::SecondsFormat::AutoSi, true),
        _ => String::new(),
    }
}

/// The name of a log level, as serialization writes it.
pub open spec fn json_log_level(l: LogLevelV) -> Seq<char> {
    match l {
        LogLevelV::Fatal => json_string(seq!['F', 'a', 't', 'a', 'l']),
        LogLevelV::Error => json_string(seq!['E', 'r', 'r', 'o', 'r']),
        LogLevelV::Warn => json_string(seq!['W', 'a', 'r', 'n']),
        LogLevelV::Info => json_string(seq!['I', 'n', 'f', 'o']),
        LogLevelV::Debug => json_string(seq!['D', 'e', 'b', 'u', 'g']),
        LogLevelV::Trace => json_string(seq!['T', 'r', 'a', 'c', 'e']),
        LogLevelV::Other(s) => seq!['{'] + json_string(seq!['O', 't', 'h', 'e', 'r']) + seq![':']
            + json_string(s) + seq!['}'],
    }
}

/// Whether a value can be rendered: every part of it except floats can.
pub open spec fn json_renderable(v: ValueV) -> bool
    decreases v, 1int,
{
    match v {
        ValueV::Float(_) => false,
        ValueV::Object(entries) => json_renderable_entries(entries),
        ValueV::Array(items) => json_renderable_items(items),
        _ => true,
    }
}

/// Whether every value in an entry list can be rendered.
pub open spec fn json_renderable_entries(entries: Seq<(Seq<char>, ValueV)>) -> bool
    decreases entries, 0int,
{
    entries.len() == 0 || (json_renderable_entries(entries.drop_last()) && json_renderable(
        entries.last().1,
    ))
}

/// Whether every value in an item list can be rendered.
pub open spec fn json_renderable_items(items: Seq<ValueV>) -> bool
    decreases items, 0int,
{
    items.len() == 0 || (json_renderable_items(items.drop_last()) && json_renderable(items.last()))
}

/// The JSON text of a value.  A float renders as the empty sequence; the
/// writer refuses such a value instead (see [`json_renderable`]).
pub open spec fn json_of(v: ValueV) -> Seq<char>
    decreases v, 1int,
{
    match v {
        ValueV::Int(i) => dec_int(i as int),
        ValueV::UInt(u) => dec_digits(u as int),
        ValueV::Float(_) => Seq::empty(),
        ValueV::Boolean(b) => if b {
            seq!['t', 'r', 'u', 'e']
        } else {
            seq!['f', 'a', 'l', 's', 'e']
        },
        ValueV::TimeStamp(t) => seq!['"'] + rfc3339_utc(t as int) + seq!['"'],
        ValueV::LogLevel(l) => json_log_level(l),
        ValueV::String(s) => json_string(s),
        ValueV::Bytes(b) => seq!['['] + json_byte_items(b) + seq![']'],
        ValueV::Object(entries) => seq!['{'] + json_members(entries) + seq!['}'],
        ValueV::Array(items) => seq!['['] + json_items(items) + seq![']'],
        ValueV::Null => seq!['n', 'u', 'l', 'l'],
    }
}

/// The comma-separated members of a JSON object, in entry order.
pub open spec fn json_members(entries: Seq<(Seq<char>, ValueV)>) -> Seq<char>
    decreases entries, 0int,
{
    if entries.len() == 0 {
        Seq::empty()
    } else {
        let prefix = if entries.len() == 1 {
            Seq::empty()
        } else {
            json_members(entries.drop_last()) + seq![',']
        };
        prefix + json_string(entries.last().0) + seq![':'] + json_of(entries.last().1)
    }
}

/// The comma-separated items of a JSON array, in order.
pub open spec fn json_items(items: Seq<ValueV>) -> Seq<char>
    decreases items, 0int,
{
    if items.len() == 0 {
        Seq::empty()
    } else {
        let prefix = if items.len() == 1 {
            Seq::empty()
        } else {
            json_items(items.drop_last()) + seq![',']
        };
        prefix + json_of(items.last())
    }
}

/// The comma-separated decimal bytes of a byte sequence.
pub open spec fn json_byte_items(b: Seq<u8>) -> Seq<char>
    decreases b.len(),
{
    if b.len() == 0 {
        Seq::empty()
    } else {
        let prefix = if b.len() == 1 {
            Seq::empty()
        } else {
            json_byte_items(b.drop_last()) + seq![',']
        };
        prefix + dec_digits(b.last() as int)
    }
}

/// An entry list with one value that cannot be rendered cannot be rendered.
proof fn lemma_not_renderable_object(entries: Seq<(Seq<char>, ValueV)>, i: int)
    requires
        0 <= i < entries.len(),
        !json_renderable(entries[i].1),
    ensures
        !json_renderable_entries(entries),
    decreases entries.len(),
{
    if i < entries.len() - 1 {
        assert(entries.drop_last()[i] == entries[i]);
        lemma_not_renderable_object(entries.drop_last(), i);
    }
}

/// An item list with one value that cannot be rendered cannot be rendered.
proof fn lemma_not_renderable_array(items: Seq<ValueV>, i: int)
    requires
        0 <= i < items.len(),
        !json_renderable(items[i]),
    ensures
        !json_renderable_items(items),
    decreases items.len(),
{
    if i < items.len() - 1 {
        assert(items.drop_last()[i] == items[i]);
        lemma_not_renderable_array(items.drop_last(), i);
    }
}

/// The decimal digit `d` as a character.
fn digit_char_exec(d: u64) -> (r: char)
    requires
        d < 10,
    ensures
        r == digit_char(d as int),
{
    match d {
        0 => '0',
        1 => '1',
        2 => '2',
        3 => '3',
        4 => '4',
        5 => '5',
        6 => '6',
        7 => '7',
        8 => '8',
        _ => '9',
    }
}

/// Appends the decimal digits of `n` to `out`.
fn push_dec_digits(n: u64, out: &mut Vec<char>)
    ensures
        final(out)@ == old(out)@ + dec_digits(n as int),
    decreases n,
{
    if n < 10 {
        out.push(digit_char_exec(n));
        proof {
            assert(out@ =~= old(out)@ + dec_digits(n as int));
        }
    } else {
        push_dec_digits(n / 10, out);
        out.push(digit_char_exec(n % 10));
        proof {
            assert(out@ =~= old(out)@ + dec_digits(n as int));
        }
    }
}

/// Appends the decimal text of a signed number to `out`.
fn push_dec_int(i: i64, out: &mut Vec<char>)
    ensures
        final(out)@ == old(out)@ + dec_int(i as int),
{
    if i >= 0 {
        push_dec_digits(i as u64, out);
    } else {
        out.push('-');
        let m: u64 = ((-(i + 1)) as u64) + 1;
        proof {
            assert(m as int == -(i as int));
        }
        push_dec_digits(m, out);
        proof {
            assert(out@ =~= old(out)@ + dec_int(i as int));
        }
    }
}

/// Appends one escaped string-body character to `out`.
fn push_esc_char(c: char, out: &mut Vec<char>)
    ensures
        final(out)@ == old(out)@ + esc_json_char(c),
{
    if c == '"' {
        out.push('\\');
        out.push('"');
    } else if c == '\\' {
        out.push('\\');
        out.push('\\');
    } else if c == '\u{8}' {
        out.push('\\');
        out.push('b');
    } else if c == '\u{9}' {
        out.push('\\');
        out.push('t');
    } else if c == '\u{a}' {
        out.push('\\');
        out.push('n');
    } else if c == '\u{c}' {
        out.push('\\');
        out.push('f');
    } else if c == '\u{d}' {
        out.push('\\');
        out.push('r');
    } else if (c as u32) < 0x20 {
        out.push('\\');
        out.push('u');
        out.push('0');
        out.push('0');
        let d = c as u32;
        let hi = (d / 16) as u64;
        let lo = (d % 16) as u64;
        if hi < 10 {
            out.push(digit_char_exec(hi));
        } else {
            out.push('a');
        }
        // the low nibble may be any hexadecimal digit
        if lo < 10 {
            out.push(digit_char_exec(lo));
        } else if lo == 10 {
            out.push('a');
        } else if lo == 11 {
            out.push('b');
        } else if lo == 12 {
            out.push('c');
        } else if lo == 13 {
            out.push('d');
        } else if lo == 14 {
            out.push('e');
        } else {
            out.push('f');
        }
    } else {
        out.push(c);
    }
    proof {
        assert(out@ =~= old(out)@ + esc_json_char(c));
    }
}

/// Appends a quoted, escaped JSON string to `out`.
fn push_json_str(s: &str, out: &mut Vec<char>)
    ensures
        final(out)@ == old(out)@ + json_string(s@),
{
    let chars = chars_of(s);
    push_json_chars(&chars, out);
}

/// Appends a quoted, escaped JSON string, given as characters, to `out`.
fn push_json_chars(s: &Vec<char>, out: &mut Vec<char>)
    ensures
        final(out)@ == old(out)@ + json_string(s@),
{
    out.push('"');
    let n = s.len();
    let mut i: usize = 0;
    while i < n
        invariant
            i <= n,
            n == s@.len(),
            out@ == old(out)@ + seq!['"'] + json_string_body(s@.take(i as int)),
        decreases n - i,
    {
        push_esc_char(s[i], out);
        proof {
            assert(s@.take(i as int + 1).drop_last() =~= s@.take(i as int));
            assert(s@.take(i as int + 1).last() == s@[i as int]);
        }
        i = i + 1;
    }
    out.push('"');
    proof {
        assert(s@.take(n as int) =~= s@);
        assert(out@ =~= old(out)@ + json_string(s@));
    }
}

/// Writes the JSON text of `v` onto `out`.  Returns false, promising
/// nothing about `out`, when the value holds a float somewhere.
fn write_json(v: &Value, out: &mut Vec<char>) -> (ok: bool)
    ensures
        ok == json_renderable(v@),
        ok ==> final(out)@ == old(out)@ + json_of(v@),
    decreases v,
{
    match v {
        Value::Int(i) => {
            push_dec_int(*i, out);
            true
        },
        Value::UInt(u) => {
            push_dec_digits(*u, out);
            true
        },
        Value::Float(_) => false,
        Value::Boolean(b) => {
            if *b {
                out.push('t');
                out.push('r');
                out.push('u');
                out.push('e');
                proof {
                    assert(out@ =~= old(out)@ + json_of(v@));
                }
            } else {
                out.push('f');
                out.push('a');
                out.push('l');
                out.push('s');
                out.push('e');
                proof {
                    assert(out@ =~= old(out)@ + json_of(v@));
                }
            }
            true
        },
        Value::TimeStamp(t) => {
            out.push('"');
            let text = format_rfc3339_utc(*t);
            let chars = chars_of(text.as_str());
            let mut j: usize = 0;
            let n = chars.len();
            while j < n
                invariant
                    j <= n,
                    n == chars@.len(),
                    out@ == old(out)@ + seq!['"'] + chars@.take(j as int),
                decreases n - j,
            {
                out.push(chars[j]);
                proof {
                    assert(out@ =~= old(out)@ + seq!['"'] + chars@.take(j as int + 1));
                }
                j = j + 1;
            }
            out.push('"');
            proof {
                assert(chars@.take(n as int) =~= chars@);
                assert(out@ =~= old(out)@ + json_of(v@));
            }
            true
        },
        Value::LogLevel(l) => {
            match l {
                LogLevel::Fatal => {
                    let name: Vec<char> = vec!['F', 'a', 't', 'a', 'l'];
                    proof {
                        assert(name@ =~= seq!['F', 'a', 't', 'a', 'l']);
                    }
                    push_json_chars(&name, out);
                },
                LogLevel::Error => {
                    let name: Vec<char> = vec!['E', 'r', 'r', 'o', 'r'];
                    proof {
                        assert(name@ =~= seq!['E', 'r', 'r', 'o', 'r']);
                    }
                    push_json_chars(&name, out);
                },
                LogLevel::Warn => {
                    let name: Vec<char> = vec!['W', 'a', 'r', 'n'];
                    proof {
                        assert(name@ =~= seq!['W', 'a', 'r', 'n']);
                    }
                    push_json_chars(&name, out);
                },
                LogLevel::Info => {
                    let name: Vec<char> = vec!['I', 'n', 'f', 'o'];
                    proof {
                        assert(name@ =~= seq!['I', 'n', 'f', 'o']);
                    }
                    push_json_chars(&name, out);
                },
                LogLevel::Debug => {
                    let name: Vec<char> = vec!['D', 'e', 'b', 'u', 'g'];
                    proof {
                        assert(name@ =~= seq!['D', 'e', 'b', 'u', 'g']);
                    }
                    push_json_chars(&name, out);
                },
                LogLevel::Trace => {
                    let name: Vec<char> = vec!['T', 'r', 'a', 'c', 'e'];
                    proof {
                        assert(name@ =~= seq!['T', 'r', 'a', 'c', 'e']);
                    }
                    push_json_chars(&name, out);
                },
                LogLevel::Other(s) => {
                    out.push('{');
                    let tag: Vec<char> = vec!['O', 't', 'h', 'e', 'r'];
                    proof {
                        assert(tag@ =~= seq!['O', 't', 'h', 'e', 'r']);
                    }
                    push_json_chars(&tag, out);
                    out.push(':');
                    push_json_str(s.as_str(), out);
                    out.push('}');
                },
            }
            proof {
                assert(out@ =~= old(out)@ + json_of(v@));
            }
            true
        },
        Value::String(s) => {
            push_json_str(s.as_str(), out);
            true
        },
        Value::Bytes(b) => {
            out.push('[');
            let n = b.len();
            let mut i: usize = 0;
            while i < n
                invariant
                    i <= n,
                    n == b@.len(),
                    out@ == old(out)@ + seq!['['] + json_byte_items(b@.take(i as int)),
                decreases n - i,
            {
                if i > 0 {
                    out.push(',');
                }
                push_dec_digits(b[i] as u64, out);
                proof {
                    assert(b@.take(i as int + 1).drop_last() =~= b@.take(i as int));
                    assert(b@.take(i as int + 1).last() == b@[i as int]);
                    assert(out@ =~= old(out)@ + seq!['['] + json_byte_items(
                        b@.take(i as int + 1),
                    ));
                }
                i = i + 1;
            }
            out.push(']');
            proof {
                assert(b@.take(n as int) =~= b@);
                assert(out@ =~= old(out)@ + json_of(v@));
            }
            true
        },
        Value::Object(entries) => {
            proof {
                crate::value::lemma_object_model(*v);
            }
            let ghost model = entries.deep_view();
            proof {
                assert(model.take(0) =~= Seq::<(Seq<char>, ValueV)>::empty());
            }
            out.push('{');
            let n = entries.len();
            let mut i: usize = 0;
            while i < n
                invariant
                    i <= n,
                    n == entries@.len(),
                    model == entries.deep_view(),
                    model.len() == n,
                    forall|q: int| 0 <= q < n ==> model[q] == (entries@[q].0@, entries@[q].1@),
                    json_renderable_entries(model.take(i as int)),
                    v@ == ValueV::Object(model),
                    *v is Object,
                    v->Object_0 == *entries,
                    out@ == old(out)@ + seq!['{'] + json_members(model.take(i as int)),
                decreases n - i,
            {
                if i > 0 {
                    out.push(',');
                }
                let pair = &entries[i];
                push_json_str(pair.0.as_str(), out);
                out.push(':');
                proof {
                    assert(decreases_to!(*v => *entries));
                    assert(decreases_to!(*entries => entries@[i as int]));
                    assert(decreases_to!(entries@[i as int] => entries@[i as int].1));
                }
                let ok = write_json(&pair.1, out);
                if !ok {
                    proof {
                        assert(model[i as int].1 == entries@[i as int].1@);
                        assert(!json_renderable(model[i as int].1));
                        lemma_not_renderable_object(model, i as int);
                    }
                    return false;
                }
                proof {
                    assert(model.take(i as int + 1).drop_last() =~= model.take(i as int));
                    assert(model.take(i as int + 1).last() == model[i as int]);
                    assert(json_renderable(model[i as int].1));
                    assert(json_renderable_entries(model.take(i as int + 1)));
                    assert(out@ =~= old(out)@ + seq!['{'] + json_members(model.take(i as int + 1)));
                }
                i = i + 1;
            }
            out.push('}');
            proof {
                assert(model.take(n as int) =~= model);
                assert(json_renderable(v@));
                assert(out@ =~= old(out)@ + json_of(v@));
            }
            true
        },
        Value::Array(items) => {
            proof {
                crate::value::lemma_array_model(*v);
            }
            let ghost model = items.deep_view();
            proof {
                assert(model.take(0) =~= Seq::<ValueV>::empty());
            }
            out.push('[');
            let n = items.len();
            let mut i: usize = 0;
            while i < n
                invariant
                    i <= n,
                    n == items@.len(),
                    model == items.deep_view(),
                    model.len() == n,
                    forall|q: int| 0 <= q < n ==> model[q] == items@[q]@,
                    json_renderable_items(model.take(i as int)),
                    v@ == ValueV::Array(model),
                    *v is Array,
                    v->Array_0 == *items,
                    out@ == old(out)@ + seq!['['] + json_items(model.take(i as int)),
                decreases n - i,
            {
                if i > 0 {
                    out.push(',');
                }
                let item = &items[i];
                proof {
                    assert(decreases_to!(*v => *items));
                    assert(decreases_to!(*items => items@[i as int]));
                }
                let ok = write_json(item, out);
                if !ok {
                    proof {
                        assert(!json_renderable(model[i as int]));
                        lemma_not_renderable_array(model, i as int);
                    }
                    return false;
                }
                proof {
                    assert(model.take(i as int + 1).drop_last() =~= model.take(i as int));
                    assert(model.take(i as int + 1).last() == model[i as int]);
                    assert(json_renderable(model[i as int]));
                    assert(json_renderable_items(model.take(i as int + 1)));
                    assert(out@ =~= old(out)@ + seq!['['] + json_items(model.take(i as int + 1)));
                }
                i = i + 1;
            }
            out.push(']');
            proof {
                assert(model.take(n as int) =~= model);
                assert(json_renderable(v@));
                assert(out@ =~= old(out)@ + json_of(v@));
            }
            true
        },
        Value::Null => {
            out.push('n');
            out.push('u');
            out.push('l');
            out.push('l');
            proof {
                assert(out@ =~= old(out)@ + json_of(v@));
            }
            true
        },
    }
}

impl Value {
    /// Renders this value as JSON text.  A value holding a float anywhere
    /// is refused: the library leaves floating-point rendering to the
    /// embedding application.
    pub fn to_json(&self) -> (r: Option<String>)
        ensures
            r matches Some(s) ==> json_renderable(self@) && s@ == json_of(self@),
            r is None ==> !json_renderable(self@),
    {
        let mut out: Vec<char> = Vec::new();
        let ok = write_json(self, &mut out);
        if ok {
            Some(string_from_chars(&out))
        } else {
            None
        }
    }
}

} // verus!

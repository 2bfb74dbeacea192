//! The JSON-compatible payload model carried by every event.
//!
//! A [`Value`] is a recursive structure: scalars, strings, byte sequences,
//! timestamps, log levels, arrays, and key-ordered string maps.  Mappings
//! keep their entries sorted by key in code-point order, which makes
//! iteration deterministic and serialization stable.

use vstd::prelude::*;
use crate::text::lex_lt;
use crate::text::str_lt;
use crate::text::lemma_lex_lt_trichotomy;
use crate::text::lemma_lex_lt_irrefl;
use crate::text::lemma_lex_lt_trans;

verus! {

/// Severity of a log record, with an escape hatch for foreign levels.
#[derive(Debug, PartialEq)]
pub enum LogLevel {
    Fatal,
    Error,
    Warn,
    Info,
    Debug,
    Trace,
    Other(String),
}

/// A JSON-like payload value.
///
/// `Float` carries the IEEE-754 bit pattern of a 64-bit floating-point
/// number; the library never computes with it.  `TimeStamp` is seconds since
/// the Unix epoch, UTC, at second precision.  `Object` is a mapping from
/// string keys to values whose entries are kept sorted by key.
#[derive(Debug, PartialEq)]
pub enum Value {
    Int(i64),
    UInt(u64),
    Float(u64),
    Boolean(bool),
    TimeStamp(i64),
    LogLevel(LogLevel),
    String(String),
    Bytes(Vec<u8>),
    Object(Vec<(String, Value)>),
    Array(Vec<Value>),
    Null,
}

/// The mathematical model of a [`LogLevel`].
pub enum LogLevelV {
    Fatal,
    Error,
    Warn,
    Info,
    Debug,
    Trace,
    Other(Seq<char>),
}

/// The mathematical model of a [`Value`].
pub enum ValueV {
    Int(i64),
    UInt(u64),
    Float(u64),
    Boolean(bool),
    TimeStamp(i64),
    LogLevel(LogLevelV),
    String(Seq<char>),
    Bytes(Seq<u8>),
    Object(Seq<(Seq<char>, ValueV)>),
    Array(Seq<ValueV>),
    Null,
}

impl DeepView for LogLevel {
    type V = LogLevelV;

    open spec fn deep_view(&self) -> LogLevelV {
        match self {
            LogLevel::Fatal => LogLevelV::Fatal,
            LogLevel::Error => LogLevelV::Error,
            LogLevel::Warn => LogLevelV::Warn,
            LogLevel::Info => LogLevelV::Info,
            LogLevel::Debug => LogLevelV::Debug,
            LogLevel::Trace => LogLevelV::Trace,
            LogLevel::Other(s) => LogLevelV::Other(s@),
        }
    }
}

impl View for LogLevel {
    type V = LogLevelV;

    open spec fn view(&self) -> LogLevelV {
        self.deep_view()
    }
}

/// The model of a [`Value`]: strings become character sequences and nested
/// containers become sequences of models.
pub open spec fn value_model(v: Value) -> ValueV
    decreases v,
{
    match v {
        Value::Int(i) => ValueV::Int(i),
        Value::UInt(u) => ValueV::UInt(u),
        Value::Float(bits) => ValueV::Float(bits),
        Value::Boolean(b) => ValueV::Boolean(b),
        Value::TimeStamp(t) => ValueV::TimeStamp(t),
        Value::LogLevel(l) => ValueV::LogLevel(l@),
        Value::String(s) => ValueV::String(s@),
        Value::Bytes(b) => ValueV::Bytes(b@),
        Value::Object(entries) => ValueV::Object(
            Seq::new(
                entries@.len(),
                |i: int|
                    if 0 <= i < entries@.len() {
                        (entries@[i].0@, value_model(entries@[i].1))
                    } else {
                        (Seq::empty(), ValueV::Null)
                    },
            ),
        ),
        Value::Array(items) => ValueV::Array(
            Seq::new(
                items@.len(),
                |i: int|
                    if 0 <= i < items@.len() {
                        value_model(items@[i])
                    } else {
                        ValueV::Null
                    },
            ),
        ),
        Value::Null => ValueV::Null,
    }
}

impl DeepView for Value {
    type V = ValueV;

    open spec fn deep_view(&self) -> ValueV {
        value_model(*self)
    }
}

impl View for Value {
    type V = ValueV;

    open spec fn view(&self) -> ValueV {
        value_model(*self)
    }
}

/// The model of a mapping value is the entry list's own model.
pub proof fn lemma_object_model(v: Value)
    requires
        v is Object,
    ensures
        value_model(v) == ValueV::Object((v->Object_0).deep_view()),
{
    let entries = v->Object_0;
    assert(value_model(v)->Object_0 =~= entries.deep_view());
}

/// The model of an array value is the item list's own model.
pub proof fn lemma_array_model(v: Value)
    requires
        v is Array,
    ensures
        value_model(v) == ValueV::Array((v->Array_0).deep_view()),
{
    let items = v->Array_0;
    assert(value_model(v)->Array_0 =~= items.deep_view());
}

/// Looks a key up in an entry list: the value of the first entry whose key
/// matches, if any.
pub open spec fn obj_get(entries: Seq<(Seq<char>, ValueV)>, key: Seq<char>) -> Option<ValueV>
    decreases entries.len(),
{
    if entries.len() == 0 {
        None
    } else if entries[0].0 == key {
        Some(entries[0].1)
    } else {
        obj_get(entries.drop_first(), key)
    }
}

/// Entry keys are strictly increasing in code-point order; in particular
/// they are pairwise distinct.
pub open spec fn obj_entries_sorted(entries: Seq<(Seq<char>, ValueV)>) -> bool {
    forall|i: int, j: int| 0 <= i < j < entries.len() ==> lex_lt(entries[i].0, entries[j].0)
}

/// A value is well formed when every mapping in it has sorted keys.
pub open spec fn value_wf(v: ValueV) -> bool
    decreases v, 1int,
{
    match v {
        ValueV::Object(entries) => obj_entries_sorted(entries) && entry_values_wf(entries),
        ValueV::Array(items) => values_wf(items),
        _ => true,
    }
}

/// Every value of an entry list is well formed.
pub open spec fn entry_values_wf(entries: Seq<(Seq<char>, ValueV)>) -> bool
    decreases entries, 0int,
{
    entries.len() == 0 || (entry_values_wf(entries.drop_last()) && value_wf(entries.last().1))
}

/// Every value of an item list is well formed.
pub open spec fn values_wf(items: Seq<ValueV>) -> bool
    decreases items, 0int,
{
    items.len() == 0 || (values_wf(items.drop_last()) && value_wf(items.last()))
}

/// An entry list's values are well formed exactly when each one is.
pub proof fn lemma_entry_values_wf_index(entries: Seq<(Seq<char>, ValueV)>)
    ensures
        entry_values_wf(entries) <==> (forall|i: int|
            0 <= i < entries.len() ==> value_wf(#[trigger] entries[i].1)),
    decreases entries.len(),
{
    if entries.len() > 0 {
        lemma_entry_values_wf_index(entries.drop_last());
        assert forall|i: int| 0 <= i < entries.len() - 1 implies entries.drop_last()[i]
            == entries[i] by {}
        if entry_values_wf(entries) {
            assert forall|i: int| 0 <= i < entries.len() implies value_wf(
                #[trigger] entries[i].1,
            ) by {
                if i < entries.len() - 1 {
                    assert(value_wf(entries.drop_last()[i].1));
                }
            }
        }
        if forall|i: int| 0 <= i < entries.len() ==> value_wf(#[trigger] entries[i].1) {
            assert forall|i: int| 0 <= i < entries.drop_last().len() implies value_wf(
                #[trigger] entries.drop_last()[i].1,
            ) by {
                assert(value_wf(entries[i].1));
            }
        }
    }
}

/// An item list's values are well formed exactly when each one is.
pub proof fn lemma_values_wf_index(items: Seq<ValueV>)
    ensures
        values_wf(items) <==> (forall|i: int| 0 <= i < items.len() ==> value_wf(#[trigger] items[i])),
    decreases items.len(),
{
    if items.len() > 0 {
        lemma_values_wf_index(items.drop_last());
        assert forall|i: int| 0 <= i < items.len() - 1 implies items.drop_last()[i] == items[i] by {}
        if values_wf(items) {
            assert forall|i: int| 0 <= i < items.len() implies value_wf(#[trigger] items[i]) by {
                if i < items.len() - 1 {
                    assert(value_wf(items.drop_last()[i]));
                }
            }
        }
        if forall|i: int| 0 <= i < items.len() ==> value_wf(#[trigger] items[i]) {
            assert forall|i: int| 0 <= i < items.drop_last().len() implies value_wf(
                #[trigger] items.drop_last()[i],
            ) by {
                assert(value_wf(items[i]));
            }
        }
    }
}

/// Finding a key by scanning is the same as [`obj_get`].
pub proof fn lemma_obj_get_index(entries: Seq<(Seq<char>, ValueV)>, key: Seq<char>, i: int)
    requires
        0 <= i < entries.len(),
        entries[i].0 == key,
        forall|j: int| 0 <= j < i ==> entries[j].0 != key,
    ensures
        obj_get(entries, key) == Some(entries[i].1),
    decreases i,
{
    if i > 0 {
        lemma_obj_get_index(entries.drop_first(), key, i - 1);
    }
}

/// If no entry has the key, [`obj_get`] is `None`.
pub proof fn lemma_obj_get_absent(entries: Seq<(Seq<char>, ValueV)>, key: Seq<char>)
    requires
        forall|j: int| 0 <= j < entries.len() ==> entries[j].0 != key,
    ensures
        obj_get(entries, key) is None,
    decreases entries.len(),
{
    if entries.len() > 0 {
        lemma_obj_get_absent(entries.drop_first(), key);
    }
}

/// Looks `key` up in a sorted or unsorted entry list.
pub fn obj_lookup<'a>(entries: &'a Vec<(String, Value)>, key: &str) -> (r: Option<&'a Value>)
    ensures
        match r {
            Some(v) => obj_get(entries.deep_view(), key@) == Some(v.deep_view()),
            None => obj_get(entries.deep_view(), key@) is None,
        },
{
    let n = entries.len();
    let mut i: usize = 0;
    while i < n
        invariant
            i <= n,
            n == entries.len(),
            forall|j: int| 0 <= j < i ==> entries.deep_view()[j].0 != key@,
        decreases n - i,
    {
        let pair = &entries[i];
        if crate::text::str_eq(pair.0.as_str(), key) {
            proof {
                assert(entries.deep_view()[i as int].0 == key@);
                lemma_obj_get_index(entries.deep_view(), key@, i as int);
            }
            return Some(&pair.1);
        }
        proof {
            assert(entries.deep_view()[i as int].0 != key@);
        }
        i = i + 1;
    }
    proof {
        lemma_obj_get_absent(entries.deep_view(), key@);
    }
    None
}

/// Looks a key, given as characters, up in an entry list.
pub fn obj_lookup_chars<'a>(entries: &'a Vec<(String, Value)>, key: &Vec<char>) -> (r: Option<
    &'a Value,
>)
    ensures
        match r {
            Some(v) => obj_get(entries.deep_view(), key@) == Some(v.deep_view()),
            None => obj_get(entries.deep_view(), key@) is None,
        },
{
    let n = entries.len();
    let mut i: usize = 0;
    while i < n
        invariant
            i <= n,
            n == entries.len(),
            forall|j: int| 0 <= j < i ==> entries.deep_view()[j].0 != key@,
        decreases n - i,
    {
        let pair = &entries[i];
        if crate::text::string_eq_chars(pair.0.as_str(), key) {
            proof {
                assert(entries.deep_view()[i as int].0 == key@);
                lemma_obj_get_index(entries.deep_view(), key@, i as int);
            }
            return Some(&pair.1);
        }
        proof {
            assert(entries.deep_view()[i as int].0 != key@);
        }
        i = i + 1;
    }
    proof {
        lemma_obj_get_absent(entries.deep_view(), key@);
    }
    None
}

/// Inserts `key ↦ value` into a sorted entry list, replacing the entry if
/// the key is already present and keeping the keys sorted.
pub fn obj_insert(entries: &mut Vec<(String, Value)>, key: String, value: Value)
    requires
        obj_entries_sorted(old(entries).deep_view()),
    ensures
        obj_entries_sorted(final(entries).deep_view()),
        obj_get(final(entries).deep_view(), key@) == Some(value.deep_view()),
        forall|k2: Seq<char>|
            k2 != key@ ==> obj_get(final(entries).deep_view(), k2)
                == obj_get(old(entries).deep_view(), k2),
        forall|i: int|
            0 <= i < final(entries).deep_view().len()
                ==> (#[trigger] final(entries).deep_view()[i].1 == value.deep_view()
                || exists|j: int|
                0 <= j < old(entries).deep_view().len()
                    && final(entries).deep_view()[i] == old(entries).deep_view()[j]),
        obj_get(old(entries).deep_view(), key@) is Some ==> final(entries).deep_view().len() == old(
            entries,
        ).deep_view().len(),
        obj_get(old(entries).deep_view(), key@) is None ==> final(entries).deep_view().len() == old(
            entries,
        ).deep_view().len() + 1,
{
    let ghost old_entries = entries.deep_view();
    let n = entries.len();
    let mut i: usize = 0;
    while i < n && str_lt(entries[i].0.as_str(), key.as_str())
        invariant
            i <= n,
            n == entries.len(),
            entries.deep_view() == old_entries,
            obj_entries_sorted(old_entries),
            forall|j: int| 0 <= j < i ==> lex_lt(old_entries[j].0, key@),
        decreases n - i,
    {
        i = i + 1;
    }
    // here every key before `i` is below `key`, and if `i` is in range then
    // `entries[i].0` is not below `key`
    if i < n && crate::text::str_eq(entries[i].0.as_str(), key.as_str()) {
        let ghost gi = i as int;
        let slot = &mut entries[i];
        *slot = (key, value);
        proof {
            let newv = entries.deep_view();
            assert(newv =~= old_entries.update(gi, (key@, value.deep_view())));
            lemma_sorted_update(old_entries, newv, gi, key@);
            assert forall|j: int| 0 <= j < gi implies old_entries[j].0 != key@ by {
                if old_entries[j].0 == key@ {
                    lemma_lex_lt_irrefl(key@);
                }
            }
            lemma_obj_get_index(old_entries, key@, gi);
            assert forall|j: int| 0 <= j < gi implies newv[j].0 != key@ by {
                if newv[j].0 == key@ {
                    lemma_lex_lt_irrefl(key@);
                }
            }
            lemma_obj_get_index(newv, key@, gi);
            assert forall|k2: Seq<char>| k2 != key@ implies obj_get(newv, k2) == obj_get(
                old_entries,
                k2,
            ) by {
                lemma_obj_get_frame(old_entries, newv, gi, k2);
            }
        }
    } else {
        let ghost gi = i as int;
        entries.insert(i, (key, value));
        proof {
            let newv = entries.deep_view();
            assert(newv =~= old_entries.insert(gi, (key@, value.deep_view())));
            lemma_sorted_insert(old_entries, newv, gi, key@);
            assert forall|j: int| 0 <= j < gi implies newv[j].0 != key@ by {
                if newv[j].0 == key@ {
                    lemma_lex_lt_irrefl(key@);
                }
            }
            lemma_obj_get_index(newv, key@, gi);
            assert forall|k2: Seq<char>| k2 != key@ implies obj_get(newv, k2) == obj_get(
                old_entries,
                k2,
            ) by {
                lemma_obj_get_frame_insert(old_entries, newv, gi, k2);
            }
            assert forall|j: int| 0 <= j < old_entries.len() implies old_entries[j].0 != key@ by {
                if j < gi {
                    if old_entries[j].0 == key@ {
                        lemma_lex_lt_irrefl(key@);
                    }
                } else if j > gi {
                    lemma_lex_lt_trichotomy(key@, old_entries[gi].0);
                    if old_entries[j].0 == key@ {
                        lemma_lex_lt_trans(key@, old_entries[gi].0, old_entries[j].0);
                        lemma_lex_lt_irrefl(key@);
                    }
                }
            }
            lemma_obj_get_absent(old_entries, key@);
        }
    }
}

/// Replacing the entry at a position whose key already stood there keeps
/// the list sorted.
proof fn lemma_sorted_update(
    oldv: Seq<(Seq<char>, ValueV)>,
    newv: Seq<(Seq<char>, ValueV)>,
    i: int,
    key: Seq<char>,
)
    requires
        obj_entries_sorted(oldv),
        0 <= i < oldv.len(),
        oldv[i].0 == key,
        newv.len() == oldv.len(),
        newv[i].0 == key,
        forall|j: int| 0 <= j < oldv.len() && j != i ==> newv[j] == oldv[j],
    ensures
        obj_entries_sorted(newv),
{
}

/// Inserting at the position found by the scan keeps the list sorted.
proof fn lemma_sorted_insert(
    oldv: Seq<(Seq<char>, ValueV)>,
    newv: Seq<(Seq<char>, ValueV)>,
    i: int,
    key: Seq<char>,
)
    requires
        obj_entries_sorted(oldv),
        0 <= i <= oldv.len(),
        forall|j: int| 0 <= j < i ==> lex_lt(oldv[j].0, key),
        i < oldv.len() ==> !lex_lt(oldv[i].0, key) && oldv[i].0 != key,
        newv.len() == oldv.len() + 1,
        newv[i].0 == key,
        forall|j: int| 0 <= j < i ==> newv[j] == oldv[j],
        forall|j: int| i <= j < oldv.len() ==> newv[j + 1] == oldv[j],
    ensures
        obj_entries_sorted(newv),
{
    assert forall|p: int, q: int| 0 <= p < q < newv.len() implies lex_lt(newv[p].0, newv[q].0) by {
        if p < i && q == i {
            assert(newv[p] == oldv[p]);
        } else if p == i && q > i {
            let oq = q - 1;
            assert(newv[q] == oldv[oq]);
            lemma_lex_lt_trichotomy(key, oldv[i].0);
            if oq > i {
                lemma_lex_lt_trans(key, oldv[i].0, oldv[oq].0);
            }
        } else if p < i && q > i {
            assert(newv[p] == oldv[p]);
            assert(newv[q] == oldv[q - 1]);
            if q - 1 == p {
                lemma_lex_lt_trichotomy(key, oldv[i].0);
                lemma_lex_lt_trans(oldv[p].0, key, oldv[i].0);
            }
        } else if p > i && q > i {
            assert(newv[p] == oldv[p - 1]);
            assert(newv[q] == oldv[q - 1]);
        } else if p < i && q < i {
            assert(newv[p] == oldv[p]);
            assert(newv[q] == oldv[q]);
        }
    }
}

/// Replacing an entry of another key leaves lookups of `k2` unchanged.
proof fn lemma_obj_get_frame(
    oldv: Seq<(Seq<char>, ValueV)>,
    newv: Seq<(Seq<char>, ValueV)>,
    i: int,
    k2: Seq<char>,
)
    requires
        0 <= i < oldv.len(),
        newv.len() == oldv.len(),
        oldv[i].0 == newv[i].0,
        oldv[i].0 != k2,
        forall|j: int| 0 <= j < oldv.len() && j != i ==> newv[j] == oldv[j],
    ensures
        obj_get(newv, k2) == obj_get(oldv, k2),
    decreases oldv.len(),
{
    if oldv.len() > 0 {
        if i == 0 {
            lemma_obj_get_same(oldv.drop_first(), newv.drop_first(), k2);
        } else if oldv[0].0 != k2 {
            lemma_obj_get_frame(oldv.drop_first(), newv.drop_first(), i - 1, k2);
        }
    }
}

/// Lists equal as sequences look up equally.
proof fn lemma_obj_get_same(
    oldv: Seq<(Seq<char>, ValueV)>,
    newv: Seq<(Seq<char>, ValueV)>,
    k2: Seq<char>,
)
    requires
        forall|j: int| 0 <= j < oldv.len() ==> newv[j] == oldv[j],
        newv.len() == oldv.len(),
    ensures
        obj_get(newv, k2) == obj_get(oldv, k2),
{
    assert(newv =~= oldv);
}

/// Inserting an entry of another key leaves lookups of `k2` unchanged.
proof fn lemma_obj_get_frame_insert(
    oldv: Seq<(Seq<char>, ValueV)>,
    newv: Seq<(Seq<char>, ValueV)>,
    i: int,
    k2: Seq<char>,
)
    requires
        0 <= i <= oldv.len(),
        newv.len() == oldv.len() + 1,
        newv[i].0 != k2,
        forall|j: int| 0 <= j < i ==> newv[j] == oldv[j],
        forall|j: int| i <= j < oldv.len() ==> newv[j + 1] == oldv[j],
    ensures
        obj_get(newv, k2) == obj_get(oldv, k2),
    decreases oldv.len(),
{
    if i == 0 {
        lemma_obj_get_same(oldv, newv.drop_first(), k2);
    } else if oldv.len() > 0 {
        if oldv[0].0 != k2 {
            lemma_obj_get_frame_insert(oldv.drop_first(), newv.drop_first(), i - 1, k2);
        }
    }
}

/// Entry values stay well formed through an insertion of a well-formed
/// value: every new entry is the inserted one or one of the old ones.
pub proof fn lemma_wf_values_after_insert(
    oldv: Seq<(Seq<char>, ValueV)>,
    newv: Seq<(Seq<char>, ValueV)>,
    value: ValueV,
)
    requires
        value_wf(value),
        forall|i: int| 0 <= i < oldv.len() ==> value_wf((#[trigger] oldv[i]).1),
        forall|i: int|
            0 <= i < newv.len() ==> ((#[trigger] newv[i]).1 == value || exists|j: int|
                0 <= j < oldv.len() && newv[i] == oldv[j]),
    ensures
        forall|i: int| 0 <= i < newv.len() ==> value_wf((#[trigger] newv[i]).1),
{
    assert forall|i: int| 0 <= i < newv.len() implies value_wf((#[trigger] newv[i]).1) by {
        if newv[i].1 != value {
            let j = choose|j: int| 0 <= j < oldv.len() && newv[i] == oldv[j];
            assert(value_wf(oldv[j].1));
        }
    }
}

/// Appending an entry leaves lookups of other keys unchanged.
pub proof fn lemma_obj_get_push_frame(
    oldv: Seq<(Seq<char>, ValueV)>,
    newv: Seq<(Seq<char>, ValueV)>,
    k2: Seq<char>,
)
    requires
        newv.len() == oldv.len() + 1,
        newv[newv.len() - 1].0 != k2,
        forall|j: int| 0 <= j < oldv.len() ==> newv[j] == oldv[j],
    ensures
        obj_get(newv, k2) == obj_get(oldv, k2),
    decreases oldv.len(),
{
    if oldv.len() == 0 {
        assert(newv[0].0 != k2);
    } else if oldv[0].0 != k2 {
        assert forall|j: int| 0 <= j < oldv.drop_first().len() implies newv.drop_first()[j]
            == oldv.drop_first()[j] by {
            assert(newv[j + 1] == oldv[j + 1]);
        }
        lemma_obj_get_push_frame(oldv.drop_first(), newv.drop_first(), k2);
    }
}

/// Inserts a well-formed value into a sorted entry list whose values are
/// all well formed, keeping both properties.
pub fn obj_insert_wf(entries: &mut Vec<(String, Value)>, key: String, value: Value)
    requires
        obj_entries_sorted(old(entries).deep_view()),
        forall|i: int|
            0 <= i < old(entries).deep_view().len() ==> value_wf(
                (#[trigger] old(entries).deep_view()[i]).1,
            ),
        value_wf(value.deep_view()),
    ensures
        obj_entries_sorted(final(entries).deep_view()),
        forall|i: int|
            0 <= i < final(entries).deep_view().len() ==> value_wf(
                (#[trigger] final(entries).deep_view()[i]).1,
            ),
        obj_get(final(entries).deep_view(), key@) == Some(value.deep_view()),
        forall|k2: Seq<char>|
            k2 != key@ ==> obj_get(final(entries).deep_view(), k2) == obj_get(
                old(entries).deep_view(),
                k2,
            ),
        obj_get(old(entries).deep_view(), key@) is Some ==> final(entries).deep_view().len() == old(
            entries,
        ).deep_view().len(),
        obj_get(old(entries).deep_view(), key@) is None ==> final(entries).deep_view().len() == old(
            entries,
        ).deep_view().len() + 1,
{
    let ghost oldv = entries.deep_view();
    let ghost vv = value.deep_view();
    obj_insert(entries, key, value);
    proof {
        lemma_wf_values_after_insert(oldv, entries.deep_view(), vv);
    }
}

impl Value {
    /// A deep copy: the copy has the same model as the original.
    pub fn duplicate(&self) -> (r: Value)
        ensures
            r@ == self@,
        decreases self,
    {
        match self {
            Value::Int(i) => Value::Int(*i),
            Value::UInt(u) => Value::UInt(*u),
            Value::Float(bits) => Value::Float(*bits),
            Value::Boolean(b) => Value::Boolean(*b),
            Value::TimeStamp(t) => Value::TimeStamp(*t),
            Value::LogLevel(l) => Value::LogLevel(
                match l {
                    LogLevel::Fatal => LogLevel::Fatal,
                    LogLevel::Error => LogLevel::Error,
                    LogLevel::Warn => LogLevel::Warn,
                    LogLevel::Info => LogLevel::Info,
                    LogLevel::Debug => LogLevel::Debug,
                    LogLevel::Trace => LogLevel::Trace,
                    LogLevel::Other(s) => LogLevel::Other(s.clone()),
                },
            ),
            Value::String(s) => Value::String(s.clone()),
            Value::Bytes(b) => {
                let n = b.len();
                let mut out: Vec<u8> = Vec::new();
                let mut i: usize = 0;
                while i < n
                    invariant
                        i <= n,
                        n == b@.len(),
                        out@ == b@.subrange(0, i as int),
                    decreases n - i,
                {
                    out.push(b[i]);
                    proof {
                        assert(out@ =~= b@.subrange(0, i as int + 1));
                    }
                    i = i + 1;
                }
                proof {
                    assert(out@ =~= b@);
                }
                Value::Bytes(out)
            },
            Value::Object(entries) => {
                let n = entries.len();
                let mut out: Vec<(String, Value)> = Vec::new();
                let mut i: usize = 0;
                while i < n
                    invariant
                        i <= n,
                        n == entries@.len(),
                        out@.len() == i,
                        *self is Object,
                        self->Object_0 == *entries,
                        forall|q: int|
                            0 <= q < i ==> (#[trigger] out@[q]).0@ == entries@[q].0@ && out@[q].1@
                                == entries@[q].1@,
                    decreases n - i,
                {
                    let pair = &entries[i];
                    proof {
                        assert(decreases_to!(*self => *entries));
                        assert(decreases_to!(*entries => entries@[i as int]));
                        assert(decreases_to!(entries@[i as int] => entries@[i as int].1));
                    }
                    out.push((pair.0.clone(), pair.1.duplicate()));
                    i = i + 1;
                }
                let r = Value::Object(out);
                proof {
                    assert(value_model(r)->Object_0 =~= value_model(*self)->Object_0);
                }
                r
            },
            Value::Array(items) => {
                let n = items.len();
                let mut out: Vec<Value> = Vec::new();
                let mut i: usize = 0;
                while i < n
                    invariant
                        i <= n,
                        n == items@.len(),
                        out@.len() == i,
                        *self is Array,
                        self->Array_0 == *items,
                        forall|q: int| 0 <= q < i ==> (#[trigger] out@[q])@ == items@[q]@,
                    decreases n - i,
                {
                    let item = &items[i];
                    proof {
                        assert(decreases_to!(*self => *items));
                        assert(decreases_to!(*items => items@[i as int]));
                    }
                    out.push(item.duplicate());
                    i = i + 1;
                }
                let r = Value::Array(out);
                proof {
                    assert(value_model(r)->Array_0 =~= value_model(*self)->Array_0);
                }
                r
            },
            Value::Null => Value::Null,
        }
    }

    /// If the value is a string, its text; `None` otherwise.
    pub fn as_str(&self) -> (r: Option<&str>)
        ensures
            match self@ {
                ValueV::String(s) => r matches Some(rs) && rs@ == s,
                _ => r is None,
            },
    {
        match self {
            Value::String(s) => Some(s.as_str()),
            _ => None,
        }
    }

    /// If the value is a mapping, its entries; `None` otherwise.
    pub fn as_object(&self) -> (r: Option<&Vec<(String, Value)>>)
        ensures
            match self@ {
                ValueV::Object(entries) => r matches Some(re) && re.deep_view() == entries,
                _ => r is None,
            },
    {
        match self {
            Value::Object(entries) => Some(entries),
            _ => None,
        }
    }
}

} // verus!

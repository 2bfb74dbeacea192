//! The binlog parser transformer: lifts the `sql` text of an event into a
//! `table` member, so that later stages can route on the table name.

use vstd::prelude::*;
use crate::ComponentKind;
use crate::ComponentApi;
use crate::event::Event;
use crate::pointer::ptr_lookup;
use crate::value::Value;
use crate::value::ValueV;
use crate::value::obj_get;
use crate::value::obj_insert_wf;
use crate::value::value_wf;
use crate::value::lemma_object_model;
use crate::value::lemma_entry_values_wf_index;

verus! {

/// The transformer that copies an event's `sql` text into its `table`
/// member.
#[derive(Debug, PartialEq)]
pub struct BinlogParser {
    pub id: String,
    pub destination: String,
}

impl BinlogParser {
    /// A parser that forwards its results to `destination`.
    pub fn new(id: String, destination: String) -> (r: Self)
        ensures
            r.id == id,
            r.destination == destination,
    {
        BinlogParser { id, destination }
    }

    /// Rewrites one event: when the payload is a mapping whose `sql`
    /// member is a string, that text becomes the `table` member; any other
    /// event is dropped.
    pub fn transform(&self, event: Event) -> (r: Option<Event>)
        requires
            value_wf(event.value@),
        ensures
            match ptr_lookup(event.value@, "/sql"@) {
                Some(ValueV::String(sql)) => {
                    if event.value@ is Object {
                        r matches Some(ev) && ev.value@ is Object && value_wf(ev.value@)
                            && obj_get(ev.value@->Object_0, "table"@) == Some(ValueV::String(sql))
                            && (forall|k: Seq<char>|
                                k != "table"@ ==> obj_get(ev.value@->Object_0, k) == obj_get(
                                    event.value@->Object_0,
                                    k,
                                ))
                    } else {
                        r is None
                    }
                },
                _ => r is None,
            },
    {
        let sql = match event.value.pointer("/sql") {
            Some(v) => match v.as_str() {
                Some(s) => s.to_owned(),
                None => {
                    return None;
                },
            },
            None => {
                return None;
            },
        };
        match event.value {
            Value::Object(mut entries) => {
                proof {
                    lemma_object_model(Value::Object(entries));
                    lemma_entry_values_wf_index(entries.deep_view());
                }
                obj_insert_wf(&mut entries, "table".to_owned(), Value::String(sql));
                let out = Value::Object(entries);
                proof {
                    lemma_object_model(out);
                    lemma_entry_values_wf_index(entries.deep_view());
                }
                Some(Event::from_value(out))
            },
            _ => None,
        }
    }
}

impl ComponentApi for BinlogParser {
    open spec fn spec_id(&self) -> Seq<char> {
        self.id@
    }

    open spec fn spec_kind(&self) -> ComponentKind {
        ComponentKind::Transformer
    }

    fn id(&self) -> (r: &str)
        ensures
            r@ == self.spec_id(),
    {
        self.id.as_str()
    }

    fn kind(&self) -> (r: ComponentKind)
        ensures
            r == self.spec_kind(),
    {
        ComponentKind::Transformer
    }
}

} // verus!

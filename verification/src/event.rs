//! The record that flows through the pipeline: a payload [`Value`] and a
//! metadata block reserved for internal tracing fields.

use vstd::prelude::*;
use crate::value::Value;

verus! {

/// Metadata attached to every event; reserved for internal tracing fields
/// and currently empty.
#[derive(Debug, PartialEq, Eq, Clone, Copy, Structural)]
pub struct EventMeta {}

/// One record flowing through the pipeline.
#[derive(Debug, PartialEq)]
pub struct Event {
    pub value: Value,
    pub meta: EventMeta,
}

impl Event {
    /// A deep copy: the copy carries a payload with the same model.
    pub fn duplicate(&self) -> (r: Event)
        ensures
            r.value@ == self.value@,
            r.meta == self.meta,
    {
        Event { value: self.value.duplicate(), meta: self.meta }
    }

    /// Wraps a payload into an event with empty metadata.
    pub fn from_value(value: Value) -> (r: Event)
        ensures
            r.value == value,
            r.meta == (EventMeta {}),
    {
        Event { value, meta: EventMeta {} }
    }
}

} // verus!

//! Utilities for testing: a component that only carries an id and a kind.

use vstd::prelude::*;
use crate::ComponentKind;
use crate::ComponentApi;

verus! {

/// A component with no behaviour, for registering inboxes in tests.
#[derive(Debug, PartialEq)]
pub struct DummyComponent {
    id: String,
    kind: ComponentKind,
}

impl DummyComponent {
    /// A component that registers under `id` with the given kind.
    pub fn new(id: String, kind: ComponentKind) -> (r: Self)
        ensures
            r.spec_id() == id@,
            r.spec_kind() == kind,
    {
        DummyComponent { id, kind }
    }
}

impl ComponentApi for DummyComponent {
    closed spec fn spec_id(&self) -> Seq<char> {
        self.id@
    }

    closed spec fn spec_kind(&self) -> ComponentKind {
        self.kind
    }

    fn id(&self) -> (r: &str)
        ensures
            r@ == self.spec_id(),
    {
        self.id.as_str()
    }

    fn kind(&self) -> (r: ComponentKind)
        ensures
            r == self.spec_kind(),
    {
        self.kind
    }
}

} // verus!

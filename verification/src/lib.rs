//! A change-data-capture and log-flow pipeline library.
//!
//! The crate models a pipeline of named components exchanging immutable
//! events: collectors produce events, transformers filter or rewrite them,
//! and dispatchers hand them to external systems.  An event router owns one
//! FIFO inbox per non-collector component and enforces the component-kind
//! rules for sending and polling.

pub mod text;
pub mod value;
pub mod pointer;
pub mod json;
pub mod event;
pub mod event_router;
pub mod template;
pub mod sql_analyzer;
pub mod collector;
pub mod filter;
pub mod kafka;
pub mod redis;
pub mod elasticsearch;
pub mod replicator;
pub mod parser;
pub mod test_utils;
pub mod maxwell;

use vstd::prelude::*;

verus! {

/// The three component categories of the pipeline, with distinct I/O rules:
/// collectors only produce events, transformers both receive and send, and
/// dispatchers only receive.
#[derive(Debug, PartialEq, Eq, Clone, Copy, Structural)]
pub enum ComponentKind {
    Collector,
    Transformer,
    Dispatcher,
}

/// What every pipeline component tells the router: a unique id and a kind.
pub trait ComponentApi {
    /// The id under which the component registers.
    spec fn spec_id(&self) -> Seq<char>;

    /// The declared component kind.
    spec fn spec_kind(&self) -> ComponentKind;

    /// The unique id of the component.
    fn id(&self) -> (r: &str)
        ensures
            r@ == self.spec_id(),
    ;

    /// The component kind: collector, transformer, or dispatcher.
    fn kind(&self) -> (r: ComponentKind)
        ensures
            r == self.spec_kind(),
    ;
}

} // verus!

//! The Elasticsearch dispatcher's decision core: per event, materialize
//! the index name from the configured template and serialize the document
//! body.  The HTTP call itself is made by the embedding application.

use vstd::prelude::*;
use crate::ComponentKind;
use crate::ComponentApi;
use crate::event::Event;
use crate::template::substitute_with_event;
use crate::template::subst;
use crate::json::json_of;
use crate::json::json_renderable;

verus! {

/// An Elasticsearch dispatcher failure.
#[derive(Debug, PartialEq)]
pub enum Error {
    Serde(String),
}

/// The sink that indexes every event as a document.
#[derive(Debug, PartialEq)]
pub struct ElasticsearchDispatcher {
    pub id: String,
    pub url: String,
    pub index: String,
}

/// The node a dispatcher talks to when none is configured.
pub fn default_url() -> (r: String)
    ensures
        r@ == "http://localhost:9200"@,
{
    "http://localhost:9200".to_owned()
}

/// The index template a dispatcher uses when none is configured.
pub fn default_index() -> (r: String)
    ensures
        r@ == "wlf"@,
{
    "wlf".to_owned()
}

/// One indexing decision: the index name and the document body.
#[derive(Debug, PartialEq)]
pub struct IndexPlan {
    pub index: String,
    pub body: String,
}

impl ElasticsearchDispatcher {
    /// Decides what to do with one polled event: skip it when the index
    /// template does not resolve, fail when the document cannot be
    /// serialized, and otherwise index it.
    pub fn plan_event(&self, event: &Event) -> (r: Result<Option<IndexPlan>, Error>)
        ensures
            subst(self.index@, event.value@) is Err ==> r == Ok::<Option<IndexPlan>, Error>(None),
            subst(self.index@, event.value@) is Ok && !json_renderable(event.value@) ==> (r matches
                Err(e) && e is Serde),
            subst(self.index@, event.value@) matches Ok(ix) ==> (json_renderable(event.value@)
                ==> (r matches Ok(Some(p)) && p.index@ == ix && p.body@ == json_of(event.value@))),
    {
        let index = match substitute_with_event(self.index.as_str(), event) {
            Ok(ix) => ix,
            Err(_) => {
                return Ok(None);
            },
        };
        let body = match event.value.to_json() {
            Some(s) => s,
            None => {
                return Err(Error::Serde("payload holds a floating-point value".to_owned()));
            },
        };
        Ok(Some(IndexPlan { index, body }))
    }
}

impl ComponentApi for ElasticsearchDispatcher {
    open spec fn spec_id(&self) -> Seq<char> {
        self.id@
    }

    open spec fn spec_kind(&self) -> ComponentKind {
        ComponentKind::Dispatcher
    }

    fn id(&self) -> (r: &str)
        ensures
            r@ == self.spec_id(),
    {
        self.id.as_str()
    }

    fn kind(&self) -> (r: ComponentKind)
        ensures
            r == self.spec_kind(),
    {
        ComponentKind::Dispatcher
    }
}

} // verus!

//! The Kafka dispatcher's decision core: per event, materialize the topic
//! from the configured template, serialize the payload, and decide whether
//! the topic must first be created.  The broker calls themselves are made
//! by the embedding application.

use vstd::prelude::*;
use crate::ComponentKind;
use crate::ComponentApi;
use crate::event::Event;
use crate::template::substitute_with_event;
use crate::template::subst;
use crate::json::json_of;
use crate::json::json_renderable;
use crate::text::str_eq;

verus! {

/// A Kafka dispatcher failure.
#[derive(Debug, PartialEq)]
pub enum Error {
    EventRouter(crate::event_router::Error),
    KafkaClient(String),
    Serde(String),
}

/// The record compression a dispatcher produces with.
#[derive(Debug, PartialEq, Eq, Clone, Copy, Structural)]
pub enum CompressionType {
    NoCompression,
    Gzip,
    Snappy,
}

impl Default for CompressionType {
    fn default() -> (r: Self)
        ensures
            r == CompressionType::NoCompression,
    {
        CompressionType::NoCompression
    }
}

/// The sink that produces every event to a Kafka topic, partition 0.
#[derive(Debug, PartialEq)]
pub struct KafkaDispatcher {
    pub id: String,
    pub topic: String,
    pub bootstrap_brokers: Vec<String>,
    pub compression_type: CompressionType,
}

/// The topic template a dispatcher uses when none is configured.
pub fn default_topic() -> (r: String)
    ensures
        r@ == "wasm-log-flex"@,
{
    "wasm-log-flex".to_owned()
}

/// Whether a topic list holds `name`.
pub open spec fn topics_contain(cache: Seq<String>, name: Seq<char>) -> bool {
    exists|i: int| 0 <= i < cache.len() && (#[trigger] cache[i])@ == name
}

/// One produce decision: the topic, whether it must be created first, and
/// the serialized record value.
#[derive(Debug, PartialEq)]
pub struct ProducePlan {
    pub topic: String,
    pub create_topic: bool,
    pub payload: String,
}

impl KafkaDispatcher {
    /// Decides what to do with one polled event: skip it when the topic
    /// template does not resolve, fail when the payload cannot be
    /// serialized, and otherwise produce — creating the topic first when
    /// the cache does not know it.
    pub fn plan_event(&self, topics_cache: &Vec<String>, event: &Event) -> (r: Result<
        Option<ProducePlan>,
        Error,
    >)
        ensures
            subst(self.topic@, event.value@) is Err ==> r == Ok::<Option<ProducePlan>, Error>(None),
            subst(self.topic@, event.value@) is Ok && !json_renderable(event.value@) ==> (r matches
                Err(e) && e is Serde),
            subst(self.topic@, event.value@) matches Ok(t) ==> (json_renderable(event.value@)
                ==> (r matches Ok(Some(p)) && p.topic@ == t && p.payload@ == json_of(event.value@)
                && p.create_topic == !topics_contain(topics_cache@, t))),
    {
        let topic_name = match substitute_with_event(self.topic.as_str(), event) {
            Ok(t) => t,
            Err(_) => {
                return Ok(None);
            },
        };
        let payload = match event.value.to_json() {
            Some(s) => s,
            None => {
                return Err(Error::Serde("payload holds a floating-point value".to_owned()));
            },
        };
        let n = topics_cache.len();
        let mut known = false;
        let mut i: usize = 0;
        while i < n
            invariant
                i <= n,
                n == topics_cache@.len(),
                known == exists|j: int|
                    0 <= j < i && (#[trigger] topics_cache@[j])@ == topic_name@,
            decreases n - i,
        {
            if str_eq(topics_cache[i].as_str(), topic_name.as_str()) {
                known = true;
            }
            i = i + 1;
        }
        proof {
            assert(known == topics_contain(topics_cache@, topic_name@));
        }
        Ok(Some(ProducePlan { topic: topic_name, create_topic: !known, payload }))
    }
}

impl ComponentApi for KafkaDispatcher {
    open spec fn spec_id(&self) -> Seq<char> {
        self.id@
    }

    open spec fn spec_kind(&self) -> ComponentKind {
        ComponentKind::Dispatcher
    }

    fn id(&self) -> (r: &str)
        ensures
            r@ == self.spec_id(),
    {
        self.id.as_str()
    }

    fn kind(&self) -> (r: ComponentKind)
        ensures
            r == self.spec_kind(),
    {
        ComponentKind::Dispatcher
    }
}

} // verus!

//! The Redis dispatcher's decision core: per event, materialize the key or
//! channel from the configured template, serialize the payload, and decide
//! which Redis operation carries it.  The connection itself is handled by
//! the embedding application.

use vstd::prelude::*;
use crate::ComponentKind;
use crate::ComponentApi;
use crate::event::Event;
use crate::template::substitute_with_event;
use crate::template::subst;
use crate::json::json_of;
use crate::json::json_renderable;

verus! {

/// A Redis dispatcher failure.
#[derive(Debug, PartialEq)]
pub enum Error {
    Redis(String),
    Serde(String),
}

/// How the dispatcher connects: host, port, optional password, and the
/// database number to select.
#[derive(Debug, PartialEq)]
pub struct Config {
    pub host: String,
    pub port: u16,
    pub auth: Option<String>,
    pub database_number: u8,
}

/// The host a dispatcher connects to when none is configured.
pub fn default_host() -> (r: String)
    ensures
        r@ == "localhost"@,
{
    "localhost".to_owned()
}

/// The port a dispatcher connects to when none is configured.
pub fn default_port() -> (r: u16)
    ensures
        r == 6379,
{
    6379
}

/// The database number a dispatcher selects when none is configured.
pub fn default_database_number() -> (r: u8)
    ensures
        r == 0,
{
    0
}

impl Default for Config {
    fn default() -> (r: Self)
        ensures
            r.host@ == "localhost"@,
            r.port == 6379,
            r.auth is None,
            r.database_number == 0,
    {
        Config { host: default_host(), port: default_port(), auth: None, database_number: 0 }
    }
}

/// The delivery mode: list pushes, a publish/subscribe channel, or a
/// stream append.  The key or channel is a template.
#[derive(Debug, PartialEq)]
pub enum Mode {
    LPush { key: String },
    RPush { key: String },
    Pub { channel: String },
    XADD { key: String },
}

impl Default for Mode {
    fn default() -> (r: Self)
        ensures
            r matches Mode::RPush { key } && key@ == "wlf"@,
    {
        Mode::RPush { key: "wlf".to_owned() }
    }
}

/// One delivery decision: the Redis operation, its materialized key or
/// channel, and the serialized payload.
#[derive(Debug, PartialEq)]
pub enum RedisOp {
    LPush { key: String, payload: String },
    RPush { key: String, payload: String },
    Publish { channel: String, payload: String },
    XAdd { key: String, payload: String },
}

/// The sink that delivers every event to Redis in its configured mode.
#[derive(Debug, PartialEq)]
pub struct RedisDispatcher {
    pub id: String,
    pub mode: Mode,
    pub config: Config,
}

/// The template a mode materializes its key or channel from.
pub open spec fn mode_template(mode: Mode) -> Seq<char> {
    match mode {
        Mode::LPush { key } => key@,
        Mode::RPush { key } => key@,
        Mode::Pub { channel } => channel@,
        Mode::XADD { key } => key@,
    }
}

/// Whether a delivery decision matches the mode, key, and payload.
pub open spec fn op_matches(op: RedisOp, mode: Mode, key: Seq<char>, payload: Seq<char>) -> bool {
    match mode {
        Mode::LPush { .. } => op matches RedisOp::LPush { key: k, payload: p } && k@ == key && p@
            == payload,
        Mode::RPush { .. } => op matches RedisOp::RPush { key: k, payload: p } && k@ == key && p@
            == payload,
        Mode::Pub { .. } => op matches RedisOp::Publish { channel: c, payload: p } && c@ == key
            && p@ == payload,
        Mode::XADD { .. } => op matches RedisOp::XAdd { key: k, payload: p } && k@ == key && p@
            == payload,
    }
}

impl RedisDispatcher {
    /// A dispatcher with the default mode and connection.
    pub fn new(id: String) -> (r: Self)
        ensures
            r.id == id,
            r.mode matches Mode::RPush { key } && key@ == "wlf"@,
            r.config.host@ == "localhost"@,
            r.config.port == 6379,
            r.config.auth is None,
            r.config.database_number == 0,
    {
        RedisDispatcher { id, mode: Mode::default(), config: Config::default() }
    }

    /// Replaces the delivery mode.
    pub fn set_mode(&mut self, mode: Mode)
        ensures
            final(self).mode == mode,
            final(self).id == old(self).id,
            final(self).config == old(self).config,
    {
        self.mode = mode;
    }

    /// Sets the connection password.
    pub fn set_password(&mut self, password: String)
        ensures
            final(self).config.auth == Some(password),
            final(self).id == old(self).id,
            final(self).mode == old(self).mode,
            final(self).config.host == old(self).config.host,
            final(self).config.port == old(self).config.port,
            final(self).config.database_number == old(self).config.database_number,
    {
        self.config.auth = Some(password);
    }

    /// Decides what to do with one polled event: skip it when the key or
    /// channel template does not resolve, fail when the payload cannot be
    /// serialized, and otherwise deliver with the configured operation.
    pub fn plan_event(&self, event: &Event) -> (r: Result<Option<RedisOp>, Error>)
        ensures
            subst(mode_template(self.mode), event.value@) is Err ==> r == Ok::<
                Option<RedisOp>,
                Error,
            >(None),
            subst(mode_template(self.mode), event.value@) is Ok && !json_renderable(event.value@)
                ==> (r matches Err(e) && e is Serde),
            subst(mode_template(self.mode), event.value@) matches Ok(k) ==> (json_renderable(
                event.value@,
            ) ==> (r matches Ok(Some(op)) && op_matches(op, self.mode, k, json_of(event.value@)))),
    {
        let template: &String = match &self.mode {
            Mode::LPush { key } => key,
            Mode::RPush { key } => key,
            Mode::Pub { channel } => channel,
            Mode::XADD { key } => key,
        };
        let key = match substitute_with_event(template.as_str(), event) {
            Ok(k) => k,
            Err(_) => {
                return Ok(None);
            },
        };
        let payload = match event.value.to_json() {
            Some(s) => s,
            None => {
                return Err(Error::Serde("payload holds a floating-point value".to_owned()));
            },
        };
        let op = match &self.mode {
            Mode::LPush { .. } => RedisOp::LPush { key, payload },
            Mode::RPush { .. } => RedisOp::RPush { key, payload },
            Mode::Pub { .. } => RedisOp::Publish { channel: key, payload },
            Mode::XADD { .. } => RedisOp::XAdd { key, payload },
        };
        Ok(Some(op))
    }
}

impl ComponentApi for RedisDispatcher {
    open spec fn spec_id(&self) -> Seq<char> {
        self.id@
    }

    open spec fn spec_kind(&self) -> ComponentKind {
        ComponentKind::Dispatcher
    }

    fn id(&self) -> (r: &str)
        ensures
            r@ == self.spec_id(),
    {
        self.id.as_str()
    }

    fn kind(&self) -> (r: ComponentKind)
        ensures
            r == self.spec_kind(),
    {
        ComponentKind::Dispatcher
    }
}

} // verus!

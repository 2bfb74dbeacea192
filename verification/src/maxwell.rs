//! The Maxwell-compatibility configuration: translates a Java-properties
//! key/value list into the pipeline configuration — a binlog collector, an
//! optional filter, and a Kafka or Redis dispatcher — rewriting Maxwell's
//! `%{table}` and `%{database}` placeholders into this library's
//! JSON-pointer form.

use vstd::prelude::*;
use crate::collector::BinlogCollector;
use crate::elasticsearch::ElasticsearchDispatcher;
use crate::filter::BinlogFilter;
use crate::filter::BinlogFilterRules;
use crate::filter::BinlogFilterRule;
use crate::kafka::CompressionType;
use crate::kafka::KafkaDispatcher;
use crate::redis::Config as RedisConfig;
use crate::redis::Mode as RedisMode;
use crate::redis::RedisDispatcher;
use crate::replicator::EventReplicator;
use crate::pointer::all_digits;
use crate::pointer::digits_value;
use crate::text::str_eq;
use crate::text::chars_of;
use crate::text::string_from_chars;
use crate::text::replace_chars;
use crate::text::replace_all;
use crate::text::split_string;
use crate::text::split_on;
use crate::text::trim_chars;
use crate::text::trimmed;

verus! {

/// The assembled pipeline configuration.
pub struct Config {
    pub collectors: Vec<Collector>,
    pub transformers: Vec<Transformer>,
    pub dispatchers: Vec<Dispatcher>,
}

/// A configured collector.
pub enum Collector {
    Binlog(BinlogCollector),
}

/// A configured transformer.
pub enum Transformer {
    BinlogFilter(BinlogFilter),
    EventReplicator(EventReplicator),
}

/// A configured dispatcher.
pub enum Dispatcher {
    Kafka(KafkaDispatcher),
    Redis(RedisDispatcher),
    Elasticsearch(ElasticsearchDispatcher),
}

/// The value of the first property named `key`, if any.
pub open spec fn prop_lookup(props: Seq<(String, String)>, key: Seq<char>) -> Option<Seq<char>>
    decreases props.len(),
{
    if props.len() == 0 {
        None
    } else if props[0].0@ == key {
        Some(props[0].1@)
    } else {
        prop_lookup(props.drop_first(), key)
    }
}

proof fn lemma_prop_lookup_index(props: Seq<(String, String)>, key: Seq<char>, i: int)
    requires
        0 <= i < props.len(),
        props[i].0@ == key,
        forall|j: int| 0 <= j < i ==> props[j].0@ != key,
    ensures
        prop_lookup(props, key) == Some(props[i].1@),
    decreases i,
{
    if i > 0 {
        lemma_prop_lookup_index(props.drop_first(), key, i - 1);
    }
}

proof fn lemma_prop_lookup_absent(props: Seq<(String, String)>, key: Seq<char>)
    requires
        forall|j: int| 0 <= j < props.len() ==> props[j].0@ != key,
    ensures
        prop_lookup(props, key) is None,
    decreases props.len(),
{
    if props.len() > 0 {
        lemma_prop_lookup_absent(props.drop_first(), key);
    }
}

/// Finds the first property named `key`.
fn prop_get<'a>(props: &'a Vec<(String, String)>, key: &str) -> (r: Option<&'a String>)
    ensures
        match r {
            Some(v) => prop_lookup(props@, key@) == Some(v@),
            None => prop_lookup(props@, key@) is None,
        },
{
    let n = props.len();
    let mut i: usize = 0;
    while i < n
        invariant
            i <= n,
            n == props@.len(),
            forall|j: int| 0 <= j < i ==> (#[trigger] props@[j]).0@ != key@,
        decreases n - i,
    {
        let pair = &props[i];
        if str_eq(pair.0.as_str(), key) {
            proof {
                lemma_prop_lookup_index(props@, key@, i as int);
            }
            return Some(&pair.1);
        }
        i = i + 1;
    }
    proof {
        lemma_prop_lookup_absent(props@, key@);
    }
    None
}

/// The digits of a decimal text, one leading `+` stripped.
pub open spec fn parse_digits(t: Seq<char>) -> Seq<char> {
    if t.len() >= 1 && t[0] == '+' {
        t.drop_first()
    } else {
        t
    }
}

/// The number a decimal text writes, allowing one leading `+` and leading
/// zeroes, when it has at least one digit and is no larger than `bound`.
pub open spec fn parse_uint_spec(t: Seq<char>, bound: int) -> Option<int> {
    if parse_digits(t).len() == 0 {
        None
    } else if !all_digits(parse_digits(t)) {
        None
    } else if digits_value(parse_digits(t)) > bound {
        None
    } else {
        Some(digits_value(parse_digits(t)))
    }
}

/// Parses a bounded decimal number, as the standard integer parsers do.
fn parse_uint(s: &str, bound: u64) -> (r: Option<u64>)
    ensures
        match r {
            Some(u) => parse_uint_spec(s@, bound as int) == Some(u as int) && u <= bound,
            None => parse_uint_spec(s@, bound as int) is None,
        },
{
    let chars = chars_of(s);
    let n = chars.len();
    let start: usize = if n >= 1 && chars[0] == '+' {
        1
    } else {
        0
    };
    let ghost digits = parse_digits(s@);
    proof {
        assert(digits =~= chars@.skip(start as int));
    }
    if n == start {
        return None;
    }
    let mut acc: u64 = 0;
    let mut i: usize = start;
    proof {
        assert(digits.take(0) =~= Seq::<char>::empty());
    }
    while i < n
        invariant
            start <= i <= n,
            n == chars@.len(),
            chars@ == s@,
            digits == chars@.skip(start as int),
            digits == parse_digits(s@),
            start == if s@.len() >= 1 && s@[0] == '+' { 1int } else { 0int },
            all_digits(digits.take(i - start)),
            acc <= bound,
            acc as int == digits_value(digits.take(i - start)),
        decreases n - i,
    {
        let c = chars[i];
        if c < '0' || c > '9' {
            proof {
                assert(digits[i - start] == chars@[i as int]);
                assert(!all_digits(digits));
            }
            return None;
        }
        let d = (c as u32 - '0' as u32) as u64;
        proof {
            assert(digits.take(i - start + 1).take(i - start) =~= digits.take(i - start));
            assert(digits.take(i - start + 1)[i - start] == digits[i - start]);
            assert(digits[i - start] == chars@[i as int]);
        }
        let next = match acc.checked_mul(10) {
            Some(m) => m.checked_add(d),
            None => None,
        };
        let capped = match next {
            Some(m) => if m <= bound {
                Some(m)
            } else {
                None
            },
            None => None,
        };
        match capped {
            Some(m) => {
                acc = m;
            },
            None => {
                proof {
                    assert(digits_value(digits.take(i - start + 1)) == acc as int * 10 + (
                    c as int - '0' as int));
                    if all_digits(digits) {
                        crate::pointer::lemma_digits_grow(digits, i - start + 1);
                        assert(digits_value(digits) > bound as int);
                    }
                    assert(digits.len() > 0);
                    assert(parse_uint_spec(s@, bound as int) is None);
                }
                return None;
            },
        }
        i = i + 1;
    }
    proof {
        assert(digits.take(n - start) =~= digits);
    }
    Some(acc)
}

/// Rewrites Maxwell's `%{table}` and `%{database}` placeholders into the
/// JSON-pointer form this library's templates read.
pub open spec fn maxwell_rewritten(s: Seq<char>) -> Seq<char> {
    replace_all(replace_all(s, "%{table}"@, "%{/table}"@), "%{database}"@, "%{/database}"@)
}

/// Rewrites a Maxwell key template into this library's form.
pub fn maxwell_key_to_wlf_format(s: &str) -> (r: String)
    ensures
        r@ == maxwell_rewritten(s@),
{
    let chars = chars_of(s);
    let pat1 = chars_of("%{table}");
    let rep1 = chars_of("%{/table}");
    let pat2 = chars_of("%{database}");
    let rep2 = chars_of("%{/database}");
    proof {
        reveal_strlit("%{table}");
        reveal_strlit("%{database}");
        assert("%{table}"@.len() == 8);
        assert("%{database}"@.len() == 11);
    }
    let step1 = replace_chars(&chars, &pat1, &rep1);
    let step2 = replace_chars(&step1, &pat2, &rep2);
    string_from_chars(&step2)
}

/// Whether a filter clause opens with its `include:` or `exclude:` marker.
pub open spec fn clause_marker_ok(clause: Seq<char>) -> bool {
    clause.len() >= 8 && (clause.take(8) == "exclude:"@ || clause.take(8) == "include:"@)
}

/// The pieces of a clause after its marker: trimmed and split on `.`.
pub open spec fn clause_parts(clause: Seq<char>) -> Seq<Seq<char>> {
    split_on(trimmed(clause.skip(8)), '.')
}

/// A clause is well formed when it has its marker and names both a database
/// and a table.
pub open spec fn clause_wf(clause: Seq<char>) -> bool {
    clause_marker_ok(clause) && clause_parts(clause).len() >= 2
}

/// Whether a rule is the one a well-formed clause writes: the marker picks
/// the rule's sense, the first piece is the database, and the second is the
/// table — with `*` standing for the whole database.
pub open spec fn rule_matches_clause(rule: BinlogFilterRule, clause: Seq<char>) -> bool {
    &&& clause_wf(clause)
    &&& ({
        let parts = clause_parts(clause);
        match rule {
            BinlogFilterRule::Exclude { database, table } => clause.take(8) == "exclude:"@
                && database@ == parts[0] && (match table {
                None => parts[1] == seq!['*'],
                Some(t) => t@ == parts[1] && parts[1] != seq!['*'],
            }),
            BinlogFilterRule::Include { database, table } => clause.take(8) == "include:"@
                && database@ == parts[0] && (match table {
                None => parts[1] == seq!['*'],
                Some(t) => t@ == parts[1] && parts[1] != seq!['*'],
            }),
        }
    })
}

/// Whether the Kafka properties are complete: brokers named, and any
/// compression one of the supported kinds.
pub open spec fn kafka_props_ok(props: Seq<(String, String)>) -> bool {
    &&& prop_lookup(props, "kafka.bootstrap.servers"@) is Some
    &&& (match prop_lookup(props, "kafka.compression.type"@) {
        Some(c) => c == "snappy"@ || c == "gzip"@,
        None => true,
    })
}

/// Whether the Redis properties are well formed: parseable port and
/// database number, and any delivery type one of the supported kinds.
pub open spec fn redis_props_ok(props: Seq<(String, String)>) -> bool {
    &&& (match prop_lookup(props, "redis_port"@) {
        Some(p) => parse_uint_spec(p, 0xffff) is Some,
        None => true,
    })
    &&& (match prop_lookup(props, "redis_database"@) {
        Some(p) => parse_uint_spec(p, 0xff) is Some,
        None => true,
    })
    &&& (match prop_lookup(props, "redis_type"@) {
        Some(t) => t == "pubsub"@ || t == "xadd"@ || t == "lpush"@ || t == "rpush"@,
        None => true,
    })
}

/// When the conversion succeeds: a user and a supported producer are named,
/// any port parses, every filter clause is well formed, and the producer's
/// own properties are in order.
pub open spec fn maxwell_config_ok(props: Seq<(String, String)>) -> bool {
    &&& prop_lookup(props, "user"@) is Some
    &&& (match prop_lookup(props, "port"@) {
        Some(p) => parse_uint_spec(p, 0xffff) is Some,
        None => true,
    })
    &&& (match prop_lookup(props, "filter"@) {
        Some(ft) => forall|i: int|
            0 <= i < split_on(ft, ',').len() ==> clause_wf(#[trigger] split_on(ft, ',')[i]),
        None => true,
    })
    &&& (match prop_lookup(props, "producer"@) {
        Some(pr) => if pr == "kafka"@ {
            kafka_props_ok(props)
        } else if pr == "redis"@ {
            redis_props_ok(props)
        } else {
            false
        },
        None => false,
    })
}

/// Parses one `include:db.tb` or `exclude:db.tb` filter clause.  The part
/// after the marker is trimmed and split on `.`; a table of `*` means the
/// whole database.
fn parse_filter_clause(clause: &String) -> (r: Result<BinlogFilterRule, String>)
    ensures
        r matches Ok(rule) ==> rule_matches_clause(rule, clause@),
        r is Err ==> !clause_wf(clause@),
{
    let chars = chars_of(clause.as_str());
    let marker_exc = chars_of("exclude:");
    let marker_inc = chars_of("include:");
    proof {
        reveal_strlit("exclude:");
        reveal_strlit("include:");
        assert("exclude:"@.len() == 8 && "include:"@.len() == 8);
        assert("exclude:"@ != "include:"@) by {
            if "exclude:"@ == "include:"@ {
                assert("exclude:"@[0] == "include:"@[0]);
            }
        }
    }
    let is_exc = starts_with_chars(&chars, &marker_exc);
    let is_inc = if is_exc {
        false
    } else {
        starts_with_chars(&chars, &marker_inc)
    };
    if !is_exc && !is_inc {
        return Err("filter broken".to_owned());
    }
    let body = crate::pointer::subrange_chars(&chars, 8, chars.len());
    proof {
        assert(body@ =~= clause@.skip(8));
    }
    let body = trim_chars(&body);
    let body_str = string_from_chars(&body);
    let parts = split_string(body_str.as_str(), '.');
    if parts.len() < 2 {
        return Err("no table in filter".to_owned());
    }
    let database = parts[0].clone();
    let table_raw = parts[1].clone();
    proof {
        reveal_strlit("*");
        assert("*"@ =~= seq!['*']);
        assert(parts.deep_view()[0] == parts@[0]@);
        assert(parts.deep_view()[1] == parts@[1]@);
    }
    let table: Option<String> = if str_eq(table_raw.as_str(), "*") {
        None
    } else {
        Some(table_raw)
    };
    if is_exc {
        Ok(BinlogFilterRule::Exclude { database, table })
    } else {
        Ok(BinlogFilterRule::Include { database, table })
    }
}

/// Whether `s` begins with `prefix`.
fn starts_with_chars(s: &Vec<char>, prefix: &Vec<char>) -> (r: bool)
    ensures
        r == (prefix@.len() <= s@.len() && s@.take(prefix@.len() as int) == prefix@),
{
    let plen = prefix.len();
    let n = s.len();
    if plen > n {
        return false;
    }
    let mut i: usize = 0;
    while i < plen
        invariant
            i <= plen,
            plen <= n,
            n == s@.len(),
            plen == prefix@.len(),
            forall|j: int| 0 <= j < i ==> s@[j] == prefix@[j],
        decreases plen - i,
    {
        if s[i] != prefix[i] {
            proof {
                assert(s@.take(plen as int)[i as int] == s@[i as int]);
            }
            return false;
        }
        i = i + 1;
    }
    proof {
        assert(s@.take(plen as int) =~= prefix@);
    }
    true
}

/// Builds the pipeline configuration from Maxwell-style Java properties:
/// one binlog collector, a filter transformer when a `filter` property is
/// present, and the dispatcher the `producer` property names.  A missing
/// or malformed required property is a setup failure.
pub fn convert_maxwell_java_properties_to_config(properties: &Vec<(String, String)>) -> (r: Result<
    Config,
    String,
>)
    ensures
        r is Ok <==> maxwell_config_ok(properties@),
        r matches Ok(config) ==> {
            &&& config.collectors@.len() == 1
            &&& config.dispatchers@.len() == 1
            &&& (config.collectors@[0] matches Collector::Binlog(c) && {
                &&& c.id@ == "collector"@
                &&& prop_lookup(properties@, "user"@) == Some(c.user@)
                &&& c.host@ == (match prop_lookup(properties@, "host"@) {
                    Some(h) => h,
                    None => "localhost"@,
                })
                &&& c.password@ == (match prop_lookup(properties@, "password"@) {
                    Some(p) => p,
                    None => Seq::<char>::empty(),
                })
                &&& (match prop_lookup(properties@, "port"@) {
                    Some(p) => parse_uint_spec(p, 0xffff) == Some(c.port as int),
                    None => c.port == 3306,
                })
                &&& c.destination@ == (if prop_lookup(properties@, "filter"@) is Some {
                    "filter"@
                } else {
                    "dispatcher"@
                })
            })
            &&& (prop_lookup(properties@, "filter"@) matches Some(ft) ==> config.transformers@.len()
                == 1 && (config.transformers@[0] matches Transformer::BinlogFilter(f) && {
                &&& f.id@ == "filter"@
                &&& f.destination@ == "dispatcher"@
                &&& f.rules.rule_list().len() == split_on(ft, ',').len()
                &&& forall|i: int|
                    0 <= i < split_on(ft, ',').len() ==> rule_matches_clause(
                        #[trigger] f.rules.rule_list()[i],
                        split_on(ft, ',')[i],
                    )
            }))
            &&& (prop_lookup(properties@, "filter"@) is None ==> config.transformers@.len() == 0)
            &&& (prop_lookup(properties@, "producer"@) == Some("kafka"@) ==> (
            config.dispatchers@[0] matches Dispatcher::Kafka(k) && {
                &&& k.id@ == "dispatcher"@
                &&& k.topic@ == maxwell_rewritten(
                    match prop_lookup(properties@, "kafka_topic"@) {
                        Some(t) => t,
                        None => "wasm-log-flex"@,
                    },
                )
                &&& (prop_lookup(properties@, "kafka.bootstrap.servers"@) matches Some(b)
                    && k.bootstrap_brokers.deep_view() == split_on(b, ','))
                &&& k.compression_type == (match prop_lookup(
                    properties@,
                    "kafka.compression.type"@,
                ) {
                    Some(c) => if c == "snappy"@ {
                        CompressionType::Snappy
                    } else {
                        CompressionType::Gzip
                    },
                    None => CompressionType::NoCompression,
                })
            }))
            &&& (prop_lookup(properties@, "producer"@) == Some("redis"@) ==> (
            config.dispatchers@[0] matches Dispatcher::Redis(d) && {
                &&& d.id@ == "dispatcher"@
                &&& d.config.host@ == (match prop_lookup(properties@, "redis_host"@) {
                    Some(h) => h,
                    None => "localhost"@,
                })
                &&& (match prop_lookup(properties@, "redis_port"@) {
                    Some(p) => parse_uint_spec(p, 0xffff) == Some(d.config.port as int),
                    None => d.config.port == 6379,
                })
                &&& (match prop_lookup(properties@, "redis_database"@) {
                    Some(p) => parse_uint_spec(p, 0xff) == Some(d.config.database_number as int),
                    None => d.config.database_number == 0,
                })
                &&& (match prop_lookup(properties@, "redis_auth"@) {
                    Some(a) => d.config.auth matches Some(s) && s@ == a,
                    None => d.config.auth is None,
                })
                &&& ({
                    let rk = match prop_lookup(properties@, "redis_key"@) {
                        Some(k) => maxwell_rewritten(k),
                        None => maxwell_rewritten("wlf"@),
                    };
                    let sk = match prop_lookup(properties@, "redis_stream_json_key"@) {
                        Some(k) => k,
                        None => "wlf"@,
                    };
                    match prop_lookup(properties@, "redis_type"@) {
                        Some(t) => if t == "pubsub"@ {
                            d.mode matches RedisMode::Pub { channel } && channel@ == rk
                        } else if t == "xadd"@ {
                            d.mode matches RedisMode::XADD { key } && key@ == sk
                        } else if t == "lpush"@ {
                            d.mode matches RedisMode::LPush { key } && key@ == rk
                        } else {
                            d.mode matches RedisMode::RPush { key } && key@ == rk
                        },
                        None => d.mode matches RedisMode::RPush { key } && key@ == "wlf"@,
                    }
                })
            }))
        },
{
    // collector
    let user = match prop_get(properties, "user") {
        Some(u) => u.clone(),
        None => {
            return Err("mysql user not specified".to_owned());
        },
    };
    let host = match prop_get(properties, "host") {
        Some(h) => h.clone(),
        None => crate::collector::default_host(),
    };
    let password = match prop_get(properties, "password") {
        Some(p) => p.clone(),
        None => String::new(),
    };
    let port: u16 = match prop_get(properties, "port") {
        Some(p) => match parse_uint(p.as_str(), 0xffff) {
            Some(v) => v as u16,
            None => {
                return Err("unknown port number".to_owned());
            },
        },
        None => crate::collector::default_port(),
    };
    let has_filter = matches!(prop_get(properties, "filter"), Some(_));
    let collector = BinlogCollector {
        id: "collector".to_owned(),
        destination: if has_filter {
            "filter".to_owned()
        } else {
            "dispatcher".to_owned()
        },
        host,
        user,
        password,
        port,
    };
    proof {
        assert(collector.destination@ == (if prop_lookup(properties@, "filter"@) is Some {
            "filter"@
        } else {
            "dispatcher"@
        }));
    }

    // filter
    let mut transformers: Vec<Transformer> = Vec::new();
    if has_filter {
        let rules_text = match prop_get(properties, "filter") {
            Some(t) => t.clone(),
            None => String::new(),
        };
        let ghost ft = rules_text@;
        proof {
            assert(prop_lookup(properties@, "filter"@) == Some(ft));
        }
        let mut rules = BinlogFilterRules::new();
        let clauses = split_string(rules_text.as_str(), ',');
        let n = clauses.len();
        let mut i: usize = 0;
        while i < n
            invariant
                i <= n,
                n == clauses@.len(),
                prop_lookup(properties@, "filter"@) == Some(ft),
                clauses.deep_view() == split_on(ft, ','),
                clauses.deep_view().len() == n,
                rules.rule_list().len() == i,
                forall|j: int|
                    0 <= j < i ==> rule_matches_clause(
                        #[trigger] rules.rule_list()[j],
                        clauses.deep_view()[j],
                    ),
            decreases n - i,
        {
            proof {
                assert(clauses.deep_view()[i as int] == clauses@[i as int]@);
            }
            match parse_filter_clause(&clauses[i]) {
                Ok(BinlogFilterRule::Include { database, table }) => {
                    rules.include_rule(database, table);
                },
                Ok(BinlogFilterRule::Exclude { database, table }) => {
                    rules.exclude(database, table);
                },
                Err(e) => {
                    proof {
                        assert(!clause_wf(split_on(ft, ',')[i as int]));
                        assert(!maxwell_config_ok(properties@));
                    }
                    return Err(e);
                },
            }
            i = i + 1;
        }
        proof {
            assert forall|j: int| 0 <= j < split_on(ft, ',').len() implies clause_wf(
                #[trigger] split_on(ft, ',')[j],
            ) by {
                assert(rule_matches_clause(rules.rule_list()[j], clauses.deep_view()[j]));
            }
        }
        let filter = BinlogFilter {
            id: "filter".to_owned(),
            destination: "dispatcher".to_owned(),
            rules,
        };
        transformers.push(Transformer::BinlogFilter(filter));
    }

    // producer
    let producer = match prop_get(properties, "producer") {
        Some(p) => p.clone(),
        None => {
            return Err("no producer".to_owned());
        },
    };
    proof {
        reveal_strlit("kafka");
        reveal_strlit("redis");
        assert("kafka"@.len() == 5 && "redis"@.len() == 5);
        assert("kafka"@ != "redis"@) by {
            if "kafka"@ == "redis"@ {
                assert("kafka"@[0] == "redis"@[0]);
            }
        }
    }
    let dispatcher: Dispatcher = if str_eq(producer.as_str(), "kafka") {
        let topic_raw = match prop_get(properties, "kafka_topic") {
            Some(t) => t.clone(),
            None => crate::kafka::default_topic(),
        };
        let topic = maxwell_key_to_wlf_format(topic_raw.as_str());
        let brokers_text = match prop_get(properties, "kafka.bootstrap.servers") {
            Some(b) => b.clone(),
            None => {
                return Err("no bootstrap_brokers specified".to_owned());
            },
        };
        let bootstrap_brokers = split_string(brokers_text.as_str(), ',');
        let compression_type = match prop_get(properties, "kafka.compression.type") {
            Some(c) => {
                if str_eq(c.as_str(), "snappy") {
                    CompressionType::Snappy
                } else if str_eq(c.as_str(), "gzip") {
                    CompressionType::Gzip
                } else {
                    return Err("compression_type not supported".to_owned());
                }
            },
            None => CompressionType::NoCompression,
        };
        Dispatcher::Kafka(
            KafkaDispatcher {
                id: "dispatcher".to_owned(),
                topic,
                bootstrap_brokers,
                compression_type,
            },
        )
    } else if str_eq(producer.as_str(), "redis") {
        let redis_key_raw = match prop_get(properties, "redis_key") {
            Some(k) => k.clone(),
            None => "wlf".to_owned(),
        };
        let redis_key = maxwell_key_to_wlf_format(redis_key_raw.as_str());
        let redis_stream_json_key = match prop_get(properties, "redis_stream_json_key") {
            Some(k) => k.clone(),
            None => "wlf".to_owned(),
        };
        let mode: RedisMode = match prop_get(properties, "redis_type") {
            Some(t) => {
                if str_eq(t.as_str(), "pubsub") {
                    RedisMode::Pub { channel: redis_key }
                } else if str_eq(t.as_str(), "xadd") {
                    RedisMode::XADD { key: redis_stream_json_key }
                } else if str_eq(t.as_str(), "lpush") {
                    RedisMode::LPush { key: redis_key }
                } else if str_eq(t.as_str(), "rpush") {
                    RedisMode::RPush { key: redis_key }
                } else {
                    return Err("redis_type not supported".to_owned());
                }
            },
            None => RedisMode::default(),
        };
        let redis_host = match prop_get(properties, "redis_host") {
            Some(h) => h.clone(),
            None => crate::redis::default_host(),
        };
        let redis_port: u16 = match prop_get(properties, "redis_port") {
            Some(p) => match parse_uint(p.as_str(), 0xffff) {
                Some(v) => v as u16,
                None => {
                    return Err("wrong redis_port".to_owned());
                },
            },
            None => crate::redis::default_port(),
        };
        let database_number: u8 = match prop_get(properties, "redis_database") {
            Some(p) => match parse_uint(p.as_str(), 0xff) {
                Some(v) => v as u8,
                None => {
                    return Err("wrong redis_database".to_owned());
                },
            },
            None => crate::redis::default_database_number(),
        };
        let auth = match prop_get(properties, "redis_auth") {
            Some(a) => Some(a.clone()),
            None => None,
        };
        Dispatcher::Redis(
            RedisDispatcher {
                id: "dispatcher".to_owned(),
                mode,
                config: RedisConfig {
                    host: redis_host,
                    port: redis_port,
                    auth,
                    database_number,
                },
            },
        )
    } else {
        return Err("unsupported producer type".to_owned());
    };

    let mut collectors: Vec<Collector> = Vec::new();
    collectors.push(Collector::Binlog(collector));
    let mut dispatchers: Vec<Dispatcher> = Vec::new();
    dispatchers.push(dispatcher);
    Ok(Config { collectors, transformers, dispatchers })
}

} // verus!

use wlf::elasticsearch::ElasticsearchDispatcher;
use wlf::event::Event;
use wlf::filter::BinlogFilterRules;
use wlf::kafka::CompressionType;
use wlf::kafka::KafkaDispatcher;
use wlf::maxwell::Collector;
use wlf::maxwell::Dispatcher;
use wlf::maxwell::convert_maxwell_java_properties_to_config;
use wlf::maxwell::maxwell_key_to_wlf_format;
use wlf::redis::Mode;
use wlf::redis::RedisDispatcher;
use wlf::redis::RedisOp;
use wlf::value::Value;
use wlf::value::obj_insert;

fn object(pairs: Vec<(&str, Value)>) -> Value {
    let mut entries: Vec<(String, Value)> = Vec::new();
    for (k, v) in pairs {
        obj_insert(&mut entries, k.to_string(), v);
    }
    Value::Object(entries)
}

fn cdc_event() -> Event {
    Event::from_value(object(vec![
        ("meta", object(vec![("database", Value::String("app".to_string()))])),
        ("sql", object(vec![("table", Value::String("users".to_string()))])),
    ]))
}

#[test]
fn kafka_topic_plan() {
    let dispatcher = KafkaDispatcher {
        id: "k".to_string(),
        topic: "logFlex.%{/meta/database}.%{/sql/table}".to_string(),
        bootstrap_brokers: vec!["127.0.0.1:9092".to_string()],
        compression_type: CompressionType::NoCompression,
    };
    let cache = vec!["logFlex.app.users".to_string()];
    let plan = dispatcher.plan_event(&cache, &cdc_event()).unwrap().unwrap();
    assert_eq!(plan.topic, "logFlex.app.users");
    assert!(!plan.create_topic);
    let plan2 = dispatcher.plan_event(&vec![], &cdc_event()).unwrap().unwrap();
    assert!(plan2.create_topic);
}

#[test]
fn kafka_skips_unresolved_topic() {
    let dispatcher = KafkaDispatcher {
        id: "k".to_string(),
        topic: "logFlex.%{/missing}".to_string(),
        bootstrap_brokers: vec![],
        compression_type: CompressionType::Gzip,
    };
    assert_eq!(dispatcher.plan_event(&vec![], &cdc_event()), Ok(None));
}

#[test]
fn kafka_serde_failure_is_fatal() {
    let dispatcher = KafkaDispatcher {
        id: "k".to_string(),
        topic: "t".to_string(),
        bootstrap_brokers: vec![],
        compression_type: CompressionType::Snappy,
    };
    let e = Event::from_value(Value::Float(3));
    assert!(matches!(
        dispatcher.plan_event(&vec![], &e),
        Err(wlf::kafka::Error::Serde(_)),
    ));
}

#[test]
fn redis_xadd_plan() {
    let mut dispatcher = RedisDispatcher::new("redis_dispatcher".to_string());
    dispatcher.set_mode(Mode::XADD { key: "wlf_%{/file}".to_string() });
    let e = Event::from_value(object(vec![
        ("file", Value::String("log1".to_string())),
        ("msg", Value::String("hello".to_string())),
    ]));
    let op = dispatcher.plan_event(&e).unwrap().unwrap();
    assert_eq!(
        op,
        RedisOp::XAdd {
            key: "wlf_log1".to_string(),
            payload: "{\"file\":\"log1\",\"msg\":\"hello\"}".to_string(),
        },
    );
}

#[test]
fn redis_default_mode_pushes_right() {
    let dispatcher = RedisDispatcher::new("r".to_string());
    let e = Event::from_value(object(vec![("msg", Value::String("hi".to_string()))]));
    let op = dispatcher.plan_event(&e).unwrap().unwrap();
    assert_eq!(
        op,
        RedisOp::RPush { key: "wlf".to_string(), payload: "{\"msg\":\"hi\"}".to_string() },
    );
}

#[test]
fn redis_serde_failure_is_fatal() {
    let dispatcher = RedisDispatcher::new("r".to_string());
    let e = Event::from_value(Value::Float(7));
    assert!(matches!(
        dispatcher.plan_event(&e),
        Err(wlf::redis::Error::Serde(_)),
    ));
}

#[test]
fn elasticsearch_index_plan() {
    let dispatcher = ElasticsearchDispatcher {
        id: "es".to_string(),
        url: wlf::elasticsearch::default_url(),
        index: "wlf-%{/meta/database}".to_string(),
    };
    let plan = dispatcher.plan_event(&cdc_event()).unwrap().unwrap();
    assert_eq!(plan.index, "wlf-app");
    let skipped = ElasticsearchDispatcher {
        id: "es".to_string(),
        url: wlf::elasticsearch::default_url(),
        index: "wlf-%{/gone}".to_string(),
    };
    assert_eq!(skipped.plan_event(&cdc_event()), Ok(None));
}

#[test]
fn filter_precedence() {
    let mut rules = BinlogFilterRules::new();
    rules.exclude("d1".to_string(), None);
    rules.include_rule("d1".to_string(), Some("t1".to_string()));
    let pass = Event::from_value(object(vec![
        ("meta", object(vec![("database", Value::String("d1".to_string()))])),
        ("sql", object(vec![("table", Value::String("t1".to_string()))])),
    ]));
    let drop = Event::from_value(object(vec![
        ("meta", object(vec![("database", Value::String("d1".to_string()))])),
        ("sql", object(vec![("table", Value::String("t2".to_string()))])),
    ]));
    assert!(rules.eval(&pass));
    assert!(!rules.eval(&drop));
    // a rule for another database is a no-op
    let other = Event::from_value(object(vec![
        ("meta", object(vec![("database", Value::String("d2".to_string()))])),
        ("sql", object(vec![("table", Value::String("t2".to_string()))])),
    ]));
    assert!(rules.eval(&other));
}

#[test]
fn parser_lifts_sql_into_table() {
    let parser = wlf::parser::BinlogParser::new("p".to_string(), "d".to_string());
    let e = Event::from_value(object(vec![("sql", Value::String("HELLO".to_string()))]));
    let out = parser.transform(e).expect("sql events pass");
    assert_eq!(out.value.pointer("/table"), Some(&Value::String("HELLO".to_string())));
    assert_eq!(out.value.pointer("/sql"), Some(&Value::String("HELLO".to_string())));
    let no_sql = Event::from_value(object(vec![("x", Value::Int(1))]));
    assert!(parser.transform(no_sql).is_none());
}

#[test]
fn maxwell_key_rewriting() {
    assert_eq!(
        maxwell_key_to_wlf_format("ns.%{database}.%{table}"),
        "ns.%{/database}.%{/table}".to_string(),
    );
    assert_eq!(maxwell_key_to_wlf_format("plain"), "plain".to_string());
}

#[test]
fn maxwell_kafka_config() {
    let props: Vec<(String, String)> = vec![
        ("user".to_string(), "root".to_string()),
        ("password".to_string(), "SECRET-REDACTED".to_string()),
        ("host".to_string(), "db.internal".to_string()),
        ("port".to_string(), "3307".to_string()),
        ("producer".to_string(), "kafka".to_string()),
        ("kafka.bootstrap.servers".to_string(), "k1:9092,k2:9092".to_string()),
        ("kafka_topic".to_string(), "m.%{table}".to_string()),
        ("kafka.compression.type".to_string(), "snappy".to_string()),
        ("filter".to_string(), "exclude:d1.*,include: d1.t1 ".to_string()),
    ];
    let config = convert_maxwell_java_properties_to_config(&props).expect("valid properties");
    assert_eq!(config.collectors.len(), 1);
    let Collector::Binlog(c) = &config.collectors[0];
    assert_eq!(c.user, "root");
    assert_eq!(c.host, "db.internal");
    assert_eq!(c.port, 3307);
    assert_eq!(c.destination, "filter");
    assert_eq!(config.transformers.len(), 1);
    assert_eq!(config.dispatchers.len(), 1);
    match &config.dispatchers[0] {
        Dispatcher::Kafka(k) => {
            assert_eq!(k.topic, "m.%{/table}");
            assert_eq!(k.bootstrap_brokers, vec!["k1:9092".to_string(), "k2:9092".to_string()]);
            assert_eq!(k.compression_type, CompressionType::Snappy);
        },
        _ => panic!("expected the kafka dispatcher"),
    }
}

#[test]
fn maxwell_redis_config_and_failures() {
    let props: Vec<(String, String)> = vec![
        ("user".to_string(), "root".to_string()),
        ("producer".to_string(), "redis".to_string()),
        ("redis_type".to_string(), "pubsub".to_string()),
        ("redis_key".to_string(), "chan.%{database}".to_string()),
        ("redis_port".to_string(), "6380".to_string()),
        ("redis_database".to_string(), "2".to_string()),
        ("redis_auth".to_string(), "SECRET-REDACTED".to_string()),
    ];
    let config = convert_maxwell_java_properties_to_config(&props).expect("valid properties");
    assert_eq!(config.collectors.len(), 1);
    let Collector::Binlog(c) = &config.collectors[0];
    assert_eq!(c.destination, "dispatcher");
    assert_eq!(config.transformers.len(), 0);
    match &config.dispatchers[0] {
        Dispatcher::Redis(d) => {
            assert!(matches!(&d.mode, Mode::Pub { channel } if channel == "chan.%{/database}"));
            assert_eq!(d.config.port, 6380);
            assert_eq!(d.config.database_number, 2);
            assert!(d.config.auth.is_some());
        },
        _ => panic!("expected the redis dispatcher"),
    }

    let missing_user: Vec<(String, String)> =
        vec![("producer".to_string(), "kafka".to_string())];
    assert!(convert_maxwell_java_properties_to_config(&missing_user).is_err());
    let bad_port: Vec<(String, String)> = vec![
        ("user".to_string(), "root".to_string()),
        ("port".to_string(), "99999".to_string()),
        ("producer".to_string(), "redis".to_string()),
    ];
    assert!(convert_maxwell_java_properties_to_config(&bad_port).is_err());
    let no_producer: Vec<(String, String)> = vec![("user".to_string(), "root".to_string())];
    assert!(convert_maxwell_java_properties_to_config(&no_producer).is_err());
}

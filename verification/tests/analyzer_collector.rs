use wlf::collector::BinlogEvent;
use wlf::collector::BinlogEventHeader;
use wlf::collector::into_wlf_event;
use wlf::sql_analyzer::Error;
use wlf::sql_analyzer::SqlAnalyzer;
use wlf::value::Value;

fn header() -> BinlogEventHeader {
    BinlogEventHeader { timestamp: 1700000000, server_id: 9 }
}

#[test]
fn create_table_event_value() {
    let mut analyzer = SqlAnalyzer::new();
    let value = analyzer
        .analyze("app", "CREATE TABLE users (id INT, name VARCHAR(64))")
        .expect("create table parses");
    assert_eq!(
        value.pointer("/type"),
        Some(&Value::String("table-create".to_string())),
    );
    assert_eq!(value.pointer("/database"), Some(&Value::String("app".to_string())));
    assert_eq!(value.pointer("/table"), Some(&Value::String("users".to_string())));
    assert_eq!(value.pointer("/columns/id"), Some(&Value::String("INT".to_string())));
    assert_eq!(
        value.pointer("/columns/name"),
        Some(&Value::String("VARCHAR(64)".to_string())),
    );
}

#[test]
fn create_database_and_skipped_statements() {
    let mut analyzer = SqlAnalyzer::new();
    let value = analyzer.analyze("app", "CREATE DATABASE app").expect("parses");
    assert_eq!(
        value.pointer("/type"),
        Some(&Value::String("database-create".to_string())),
    );
    // statements outside the mapping are dropped as null
    let skipped = analyzer.analyze("app", "BEGIN").expect("parses");
    assert_eq!(skipped, Value::Null);
}

#[test]
fn insert_statement_names_its_table() {
    let mut analyzer = SqlAnalyzer::new();
    let value = analyzer
        .analyze("app", "INSERT INTO users VALUES (1, 'alice')")
        .expect("insert parses");
    assert_eq!(value.pointer("/type"), Some(&Value::String("insert".to_string())));
    assert_eq!(value.pointer("/database"), Some(&Value::String("app".to_string())));
    assert_eq!(value.pointer("/table"), Some(&Value::String("users".to_string())));
}

#[test]
fn repeated_column_names_keep_the_last() {
    let mut analyzer = SqlAnalyzer::new();
    let value = analyzer
        .analyze("app", "CREATE TABLE t2 (a INT, a TEXT)")
        .expect("parses");
    assert_eq!(value.pointer("/columns/a"), Some(&Value::String("TEXT".to_string())));
}

#[test]
fn analyze_errors() {
    let mut analyzer = SqlAnalyzer::new();
    assert!(matches!(analyzer.analyze("app", "CREATE TABLE ("), Err(Error::Parse(_))));
    assert!(matches!(
        analyzer.analyze("app", "SELECT 1; SELECT 2"),
        Err(Error::Other(m)) if m == "multiple statements in one sql",
    ));
}

#[test]
fn row_reconstruction() {
    let mut analyzer = SqlAnalyzer::new();
    analyzer
        .analyze("app", "CREATE TABLE users (id INT, name VARCHAR(64))")
        .expect("create table parses");
    let map_event = BinlogEvent::TableMap {
        table_id: 17,
        database_name: "app".to_string(),
        table_name: "users".to_string(),
    };
    assert_eq!(into_wlf_event(&mut analyzer, &header(), &map_event), Ok(None));

    let rows_event = BinlogEvent::WriteRows {
        table_id: 17,
        rows: vec![vec![Some("1".to_string()), Some("\"alice\"".to_string())]],
    };
    let out = into_wlf_event(&mut analyzer, &header(), &rows_event)
        .expect("rows translate")
        .expect("one event comes out");
    assert_eq!(out.value.pointer("/database"), Some(&Value::String("app".to_string())));
    assert_eq!(out.value.pointer("/table"), Some(&Value::String("users".to_string())));
    assert_eq!(out.value.pointer("/type"), Some(&Value::String("insert".to_string())));
    assert_eq!(out.value.pointer("/timestamp"), Some(&Value::TimeStamp(1700000000)));
    assert_eq!(out.value.pointer("/server_id"), Some(&Value::UInt(9)));
    assert_eq!(out.value.pointer("/data/0/id"), Some(&Value::String("1".to_string())));
    assert_eq!(
        out.value.pointer("/data/0/name"),
        Some(&Value::String("\"alice\"".to_string())),
    );
}

#[test]
fn row_stops_at_column_count() {
    let mut analyzer = SqlAnalyzer::new();
    analyzer.analyze("app", "CREATE TABLE t1 (a INT)").expect("parses");
    let map_event = BinlogEvent::TableMap {
        table_id: 3,
        database_name: "app".to_string(),
        table_name: "t1".to_string(),
    };
    into_wlf_event(&mut analyzer, &header(), &map_event).unwrap();
    // two cells, one column: the row is emitted partially
    let rows_event = BinlogEvent::WriteRows {
        table_id: 3,
        rows: vec![vec![Some("1".to_string()), Some("extra".to_string())]],
    };
    let out = into_wlf_event(&mut analyzer, &header(), &rows_event).unwrap().unwrap();
    assert_eq!(out.value.pointer("/data/0/a"), Some(&Value::String("1".to_string())));
    assert_eq!(out.value.pointer("/data/0/extra"), None);
    // a NULL cell becomes a null member
    let rows_event2 = BinlogEvent::WriteRows { table_id: 3, rows: vec![vec![None]] };
    let out2 = into_wlf_event(&mut analyzer, &header(), &rows_event2).unwrap().unwrap();
    assert_eq!(out2.value.pointer("/data/0/a"), Some(&Value::Null));
}

#[test]
fn unknown_tables_are_reported() {
    let mut analyzer = SqlAnalyzer::new();
    let rows_event = BinlogEvent::WriteRows { table_id: 99, rows: vec![] };
    assert!(matches!(
        into_wlf_event(&mut analyzer, &header(), &rows_event),
        Err(wlf::collector::Error::SqlAnalyzer(Error::TableIdNotFound(99))),
    ));
    // a mapped table without a seen CREATE TABLE is degraded
    let map_event = BinlogEvent::TableMap {
        table_id: 99,
        database_name: "app".to_string(),
        table_name: "ghost".to_string(),
    };
    into_wlf_event(&mut analyzer, &header(), &map_event).unwrap();
    let rows_again = BinlogEvent::WriteRows { table_id: 99, rows: vec![] };
    assert!(matches!(
        into_wlf_event(&mut analyzer, &header(), &rows_again),
        Err(wlf::collector::Error::SqlAnalyzer(Error::TableNotFound(d, t))) if d == "app" && t == "ghost",
    ));
}

#[test]
fn query_event_merges_header_fields() {
    let mut analyzer = SqlAnalyzer::new();
    let query = BinlogEvent::Query {
        thread_id: 5,
        database_name: "app".to_string(),
        sql_statement: "CREATE DATABASE app".to_string(),
    };
    let out = into_wlf_event(&mut analyzer, &header(), &query).unwrap().unwrap();
    assert_eq!(out.value.pointer("/timestamp"), Some(&Value::TimeStamp(1700000000)));
    assert_eq!(out.value.pointer("/server_id"), Some(&Value::UInt(9)));
    assert_eq!(out.value.pointer("/thread_id"), Some(&Value::UInt(5)));
    assert_eq!(
        out.value.pointer("/type"),
        Some(&Value::String("database-create".to_string())),
    );
    // a skipped statement drops the whole query event
    let skipped = BinlogEvent::Query {
        thread_id: 5,
        database_name: "app".to_string(),
        sql_statement: "BEGIN".to_string(),
    };
    assert_eq!(into_wlf_event(&mut analyzer, &header(), &skipped), Ok(None));
}

#[test]
fn bookkeeping_and_unsupported_events() {
    let mut analyzer = SqlAnalyzer::new();
    assert_eq!(into_wlf_event(&mut analyzer, &header(), &BinlogEvent::Rotate), Ok(None));
    assert_eq!(into_wlf_event(&mut analyzer, &header(), &BinlogEvent::Heartbeat), Ok(None));
    assert_eq!(into_wlf_event(&mut analyzer, &header(), &BinlogEvent::Xid), Ok(None));
    assert!(matches!(
        into_wlf_event(&mut analyzer, &header(), &BinlogEvent::Unsupported),
        Err(wlf::collector::Error::Other(m)) if m == "unsupported binlog event",
    ));
}

//! The binlog collector's translation core: raw replication events, already
//! reduced to plain values, become events in the pipeline's data model.
//!
//! A query event runs through the SQL analyzer and its result is merged
//! into a header-derived value; a table-map event only updates the
//! analyzer's caches; a row-insert event is reconstructed against the
//! cached column definitions.  Bookkeeping events are dropped, and any
//! other replication event is rejected.

use vstd::prelude::*;
use crate::ComponentKind;
use crate::ComponentApi;
use crate::event::Event;
use crate::sql_analyzer::SqlAnalyzer;
use crate::sql_analyzer::SqlStatement;
use crate::sql_analyzer::statement_effect;
use crate::sql_analyzer::mysql_parse;
use crate::value::Value;
use crate::value::ValueV;
use crate::value::obj_get;
use crate::value::obj_entries_sorted;
use crate::value::value_wf;
use crate::value::obj_insert_wf;
use crate::value::lemma_object_model;
use crate::value::lemma_array_model;
use crate::value::lemma_obj_get_absent;
use crate::value::lemma_obj_get_index;
use crate::value::lemma_obj_get_push_frame;
use crate::value::lemma_entry_values_wf_index;
use crate::value::lemma_values_wf_index;
use crate::text::lex_lt;
use crate::text::lemma_lex_lt_irrefl;

verus! {

/// The parts of a replication event header that the translation reads:
/// creation time in Unix seconds, and the id of the originating server.
#[derive(Debug, PartialEq, Eq, Clone, Copy, Structural)]
pub struct BinlogEventHeader {
    pub timestamp: u32,
    pub server_id: u32,
}

/// A replication event, reduced to the plain values the translation reads.
/// Row cells arrive already formatted as text, or absent for SQL NULL.
#[derive(Debug, PartialEq)]
pub enum BinlogEvent {
    Query { thread_id: u32, database_name: String, sql_statement: String },
    TableMap { table_id: u64, database_name: String, table_name: String },
    WriteRows { table_id: u64, rows: Vec<Vec<Option<String>>> },
    Rotate,
    FormatDescription,
    Heartbeat,
    Xid,
    Unknown,
    Unsupported,
}

/// A collector failure.
#[derive(Debug, PartialEq)]
pub enum Error {
    BinlogClient(String),
    EventRouter(crate::event_router::Error),
    SqlAnalyzer(crate::sql_analyzer::Error),
    Other(String),
}

/// The replication source of the pipeline: tails a MySQL server's binlog
/// and forwards translated events to `destination`.
#[derive(Debug, PartialEq)]
pub struct BinlogCollector {
    pub id: String,
    pub destination: String,
    pub host: String,
    pub user: String,
    pub password: String,
    pub port: u16,
}

/// The host a collector connects to when none is configured.
pub fn default_host() -> (r: String)
    ensures
        r@ == "localhost"@,
{
    "localhost".to_owned()
}

/// The MySQL port a collector connects to when none is configured.
pub fn default_port() -> (r: u16)
    ensures
        r == 3306,
{
    3306
}

impl ComponentApi for BinlogCollector {
    open spec fn spec_id(&self) -> Seq<char> {
        self.id@
    }

    open spec fn spec_kind(&self) -> ComponentKind {
        ComponentKind::Collector
    }

    fn id(&self) -> (r: &str)
        ensures
            r@ == self.spec_id(),
    {
        self.id.as_str()
    }

    fn kind(&self) -> (r: ComponentKind)
        ensures
            r == self.spec_kind(),
    {
        ComponentKind::Collector
    }
}

/// The value a row cell contributes: its text, or null for SQL NULL.
pub open spec fn cell_value(c: Option<Seq<char>>) -> ValueV {
    match c {
        Some(s) => ValueV::String(s),
        None => ValueV::Null,
    }
}

/// The key/value pairs of one reconstructed row: cell `j` is named by
/// column `j`, and the row stops where the cells outrun the columns.
pub open spec fn row_pairs(
    cols: Seq<(Seq<char>, Seq<char>)>,
    cells: Seq<Option<Seq<char>>>,
) -> Seq<(Seq<char>, ValueV)> {
    Seq::new(
        if cols.len() < cells.len() {
            cols.len()
        } else {
            cells.len()
        },
        |j: int|
            if 0 <= j < cols.len() && j < cells.len() {
                (cols[j].0, cell_value(cells[j]))
            } else {
                (Seq::empty(), ValueV::Null)
            },
    )
}

/// The value of the last pair carrying `name`, if any.
pub open spec fn pairs_lookup(pairs: Seq<(Seq<char>, ValueV)>, name: Seq<char>) -> Option<ValueV>
    decreases pairs.len(),
{
    if pairs.len() == 0 {
        None
    } else if pairs.last().0 == name {
        Some(pairs.last().1)
    } else {
        pairs_lookup(pairs.drop_last(), name)
    }
}

/// One reconstructed row: a mapping whose members are exactly the row's
/// pairs, the last definition of a repeated column name winning.
pub open spec fn row_shape(
    cols: Seq<(Seq<char>, Seq<char>)>,
    cells: Seq<Option<Seq<char>>>,
    out: ValueV,
) -> bool {
    &&& out is Object
    &&& value_wf(out)
    &&& forall|n: Seq<char>| #![auto]
        obj_get(out->Object_0, n) == pairs_lookup(row_pairs(cols, cells), n)
}

/// The value emitted for a row-insert replication event.
pub open spec fn insert_event_shape(
    db: Seq<char>,
    table: Seq<char>,
    cols: Seq<(Seq<char>, Seq<char>)>,
    rows: Seq<Seq<Option<Seq<char>>>>,
    header: BinlogEventHeader,
    out: ValueV,
) -> bool {
    &&& out is Object
    &&& value_wf(out)
    &&& out->Object_0.len() == 6
    &&& obj_get(out->Object_0, "database"@) == Some(ValueV::String(db))
    &&& obj_get(out->Object_0, "table"@) == Some(ValueV::String(table))
    &&& obj_get(out->Object_0, "type"@) == Some(ValueV::String("insert"@))
    &&& obj_get(out->Object_0, "timestamp"@) == Some(ValueV::TimeStamp(header.timestamp as i64))
    &&& obj_get(out->Object_0, "server_id"@) == Some(ValueV::UInt(header.server_id as u64))
    &&& (obj_get(out->Object_0, "data"@) matches Some(d) && d is Array && d->Array_0.len()
        == rows.len() && (forall|i: int| #![auto]
        0 <= i < rows.len() ==> row_shape(cols, rows[i], d->Array_0[i])))
}

/// The merge of the analyzer's properties over the header-derived members:
/// a property wins where both name a key.
pub open spec fn merged_query_shape(
    props: ValueV,
    header: BinlogEventHeader,
    thread_id: u32,
    out: ValueV,
) -> bool {
    &&& out is Object
    &&& value_wf(out)
    &&& forall|k: Seq<char>| #![auto]
        obj_get(out->Object_0, k) == (match obj_get(props->Object_0, k) {
            Some(v) => Some(v),
            None => if k == "timestamp"@ {
                Some(ValueV::TimeStamp(header.timestamp as i64))
            } else if k == "server_id"@ {
                Some(ValueV::UInt(header.server_id as u64))
            } else if k == "thread_id"@ {
                Some(ValueV::UInt(thread_id as u64))
            } else {
                None
            },
        })
}

/// What a translated query event yields once the analyzer has produced its
/// properties value `props`: a null value drops the event, a mapping is
/// merged over the header-derived members.
pub open spec fn query_merge_outcome(
    props: ValueV,
    header: BinlogEventHeader,
    thread_id: u32,
    r: Result<Option<Event>, Error>,
) -> bool {
    &&& props == ValueV::Null ==> r == Ok::<Option<Event>, Error>(None)
    &&& props is Object ==> (r matches Ok(Some(ev)) && merged_query_shape(
        props,
        header,
        thread_id,
        ev.value@,
    ))
}

/// Builds the header-derived members of a query event's value.
fn build_query_base(header: &BinlogEventHeader, thread_id: u32) -> (r: Vec<(String, Value)>)
    ensures
        obj_entries_sorted(r.deep_view()),
        forall|i: int|
            0 <= i < r.deep_view().len() ==> value_wf((#[trigger] r.deep_view()[i]).1),
        obj_get(r.deep_view(), "timestamp"@) == Some(ValueV::TimeStamp(header.timestamp as i64)),
        obj_get(r.deep_view(), "server_id"@) == Some(ValueV::UInt(header.server_id as u64)),
        obj_get(r.deep_view(), "thread_id"@) == Some(ValueV::UInt(thread_id as u64)),
        forall|k: Seq<char>|
            k != "timestamp"@ && k != "server_id"@ && k != "thread_id"@ ==> obj_get(
                r.deep_view(),
                k,
            ) is None,
{
    proof {
        reveal_strlit("timestamp");
        reveal_strlit("server_id");
        reveal_strlit("thread_id");
        assert("timestamp"@.len() == 9 && "server_id"@.len() == 9 && "thread_id"@.len() == 9);
        assert("timestamp"@ != "server_id"@) by {
            if "timestamp"@ == "server_id"@ {
                assert("timestamp"@[0] == "server_id"@[0]);
            }
        }
        assert("timestamp"@ != "thread_id"@) by {
            if "timestamp"@ == "thread_id"@ {
                assert("timestamp"@[1] == "thread_id"@[1]);
            }
        }
        assert("server_id"@ != "thread_id"@) by {
            if "server_id"@ == "thread_id"@ {
                assert("server_id"@[0] == "thread_id"@[0]);
            }
        }
    }
    let mut base: Vec<(String, Value)> = Vec::new();
    obj_insert_wf(&mut base, "timestamp".to_owned(), Value::TimeStamp(header.timestamp as i64));
    obj_insert_wf(&mut base, "server_id".to_owned(), Value::UInt(header.server_id as u64));
    obj_insert_wf(&mut base, "thread_id".to_owned(), Value::UInt(thread_id as u64));
    base
}

/// Translates one replication event into at most one pipeline event,
/// updating the analyzer's caches on the way.  Bookkeeping events yield
/// nothing; an unsupported event is an error.
pub fn into_wlf_event(
    sql_analyzer: &mut SqlAnalyzer,
    event_header: &BinlogEventHeader,
    binlog_event: &BinlogEvent,
) -> (r: Result<Option<Event>, Error>)
    ensures
        match *binlog_event {
            BinlogEvent::Query { thread_id, database_name, sql_statement } => {
                &&& (mysql_parse(sql_statement@) is None ==> (r matches Err(Error::SqlAnalyzer(e))
                    && e is Parse))
                &&& ((mysql_parse(sql_statement@) matches Some(sts) && sts.len() != 1) ==> (r
                matches Err(Error::SqlAnalyzer(e)) && e is Other))
                &&& (mysql_parse(sql_statement@) matches Some(sts) ==> (sts.len() == 1 ==> exists|
                    props: ValueV,
                |
                    statement_effect(*old(sql_analyzer), *final(sql_analyzer), database_name@, sts[0], props)
                        && query_merge_outcome(props, *event_header, thread_id, r)))
            },
            BinlogEvent::TableMap { table_id, database_name, table_name } => {
                &&& r == Ok::<Option<Event>, Error>(None)
                &&& final(sql_analyzer).tables() == old(sql_analyzer).tables().insert(
                    table_id,
                    (database_name@, table_name@),
                )
                &&& forall|k: (Seq<char>, Seq<char>)| #![auto]
                    final(sql_analyzer).columns_of(k) == old(sql_analyzer).columns_of(k)
            },
            BinlogEvent::WriteRows { table_id, ref rows } => {
                &&& *final(sql_analyzer) == *old(sql_analyzer)
                &&& (!old(sql_analyzer).tables().contains_key(table_id) ==> (r matches Err(
                    Error::SqlAnalyzer(e),
                ) && (e matches crate::sql_analyzer::Error::TableIdNotFound(t) && t == table_id)))
                &&& (old(sql_analyzer).tables().contains_key(table_id) && old(
                    sql_analyzer,
                ).columns_of(old(sql_analyzer).tables()[table_id]) is None ==> (r matches Err(
                    Error::SqlAnalyzer(e),
                ) && e is TableNotFound))
                &&& (old(sql_analyzer).tables().contains_key(table_id) && old(
                    sql_analyzer,
                ).columns_of(old(sql_analyzer).tables()[table_id]) is Some ==> (r matches Ok(
                    Some(ev),
                ) && insert_event_shape(
                    old(sql_analyzer).tables()[table_id].0,
                    old(sql_analyzer).tables()[table_id].1,
                    old(sql_analyzer).columns_of(old(sql_analyzer).tables()[table_id])->Some_0,
                    rows.deep_view(),
                    *event_header,
                    ev.value@,
                )))
            },
            BinlogEvent::Rotate | BinlogEvent::FormatDescription | BinlogEvent::Heartbeat
                | BinlogEvent::Xid | BinlogEvent::Unknown => r == Ok::<Option<Event>, Error>(None)
                && *final(sql_analyzer) == *old(sql_analyzer),
            BinlogEvent::Unsupported => (r matches Err(Error::Other(m)) && m@
                == "unsupported binlog event"@) && *final(sql_analyzer) == *old(sql_analyzer),
        },
{
    match binlog_event {
        BinlogEvent::Query { thread_id, database_name, sql_statement } => {
            let props = match sql_analyzer.analyze(database_name.as_str(), sql_statement.as_str()) {
                Ok(v) => v,
                Err(e) => {
                    return Err(Error::SqlAnalyzer(e));
                },
            };
            let ghost parsed = mysql_parse(sql_statement@);
            proof {
                if parsed is Some && parsed->Some_0.len() == 1 {
                    assert(statement_effect(
                        *old(sql_analyzer),
                        *sql_analyzer,
                        database_name@,
                        parsed->Some_0[0],
                        props@,
                    ));
                }
            }
            match props {
                Value::Null => {
                    proof {
                        if parsed is Some && parsed->Some_0.len() == 1 {
                            assert(query_merge_outcome(
                                props@,
                                *event_header,
                                *thread_id,
                                Ok::<Option<Event>, Error>(None),
                            ));
                            assert(exists|p: ValueV|
                                statement_effect(
                                    *old(sql_analyzer),
                                    *sql_analyzer,
                                    database_name@,
                                    parsed->Some_0[0],
                                    p,
                                ) && query_merge_outcome(
                                    p,
                                    *event_header,
                                    *thread_id,
                                    Ok::<Option<Event>, Error>(None),
                                ));
                        }
                    }
                    Ok(None)
                },
                Value::Object(pentries) => {
                    let ghost props_model = ValueV::Object(pentries.deep_view());
                    proof {
                        lemma_object_model(Value::Object(pentries));
                        lemma_entry_values_wf_index(pentries.deep_view());
                        assert(props_model == props@);
                    }
                    let mut merged = build_query_base(event_header, *thread_id);
                    let ghost base0 = merged.deep_view();
                    let n = pentries.len();
                    let ghost pmodel = pentries.deep_view();
                    let mut i: usize = 0;
                    proof {
                        assert forall|k: Seq<char>| #![auto] obj_get(pmodel.take(0), k) is None by {
                            assert(pmodel.take(0) =~= Seq::<(Seq<char>, ValueV)>::empty());
                        }
                    }
                    while i < n
                        invariant
                            i <= n,
                            n == pentries@.len(),
                            pmodel == pentries.deep_view(),
                            obj_entries_sorted(pmodel),
                            forall|q: int|
                                0 <= q < pmodel.len() ==> value_wf((#[trigger] pmodel[q]).1),
                            obj_entries_sorted(merged.deep_view()),
                            forall|q: int|
                                0 <= q < merged.deep_view().len() ==> value_wf(
                                    (#[trigger] merged.deep_view()[q]).1,
                                ),
                            forall|k: Seq<char>| #![auto]
                                obj_get(merged.deep_view(), k) == (match obj_get(
                                    pmodel.take(i as int),
                                    k,
                                ) {
                                    Some(v) => Some(v),
                                    None => obj_get(base0, k),
                                }),
                            parsed == mysql_parse(sql_statement@),
                            props_model == ValueV::Object(pmodel),
                            parsed is Some && parsed->Some_0.len() == 1 ==> statement_effect(
                                *old(sql_analyzer),
                                *sql_analyzer,
                                database_name@,
                                parsed->Some_0[0],
                                props_model,
                            ),
                        decreases n - i,
                    {
                        let ghost before = merged.deep_view();
                        let pair = &pentries[i];
                        proof {
                            assert(pmodel[i as int] == (pair.0@, pair.1.deep_view()));
                            assert(value_wf(pmodel[i as int].1));
                        }
                        let copied = pair.1.duplicate();
                        obj_insert_wf(&mut merged, pair.0.clone(), copied);
                        proof {
                            let prefix = pmodel.take(i as int);
                            let longer = pmodel.take(i as int + 1);
                            assert(longer.drop_last() =~= prefix);
                            assert(longer.last() == pmodel[i as int]);
                            // the new key is absent from the shorter prefix:
                            // earlier keys are strictly below it
                            assert forall|j: int| 0 <= j < prefix.len() implies prefix[j].0
                                != pair.0@ by {
                                assert(prefix[j] == pmodel[j]);
                                assert(lex_lt(pmodel[j].0, pmodel[i as int].0));
                                if pmodel[j].0 == pair.0@ {
                                    lemma_lex_lt_irrefl(pair.0@);
                                }
                            }
                            lemma_obj_get_absent(prefix, pair.0@);
                            assert forall|j: int| 0 <= j < longer.len() - 1 implies longer[j].0
                                != pair.0@ by {
                                assert(longer[j] == pmodel[j]);
                                assert(prefix[j] == pmodel[j]);
                            }
                            lemma_obj_get_index(longer, pair.0@, longer.len() - 1);
                            assert forall|k: Seq<char>| #![auto]
                                obj_get(merged.deep_view(), k) == (match obj_get(longer, k) {
                                    Some(v) => Some(v),
                                    None => obj_get(base0, k),
                                }) by {
                                if k != pair.0@ {
                                    assert(obj_get(merged.deep_view(), k) == obj_get(before, k));
                                    assert forall|j: int|
                                        0 <= j < prefix.len() implies longer[j] == prefix[j] by {}
                                    lemma_obj_get_push_frame(prefix, longer, k);
                                }
                            }
                        }
                        i = i + 1;
                    }
                    proof {
                        assert(pmodel.take(n as int) =~= pmodel);
                    }
                    let out = Value::Object(merged);
                    proof {
                        lemma_object_model(out);
                        lemma_entry_values_wf_index(out->Object_0.deep_view());
                    }
                    let ev = Event::from_value(out);
                    proof {
                        assert(merged_query_shape(props_model, *event_header, *thread_id, ev.value@));
                        if parsed is Some && parsed->Some_0.len() == 1 {
                            assert(query_merge_outcome(
                                props_model,
                                *event_header,
                                *thread_id,
                                Ok::<Option<Event>, Error>(Some(ev)),
                            ));
                            assert(exists|p: ValueV|
                                statement_effect(
                                    *old(sql_analyzer),
                                    *sql_analyzer,
                                    database_name@,
                                    parsed->Some_0[0],
                                    p,
                                ) && query_merge_outcome(
                                    p,
                                    *event_header,
                                    *thread_id,
                                    Ok::<Option<Event>, Error>(Some(ev)),
                                ));
                        }
                    }
                    Ok(Some(ev))
                },
                _ => Ok(None),
            }
        },
        BinlogEvent::TableMap { table_id, database_name, table_name } => {
            sql_analyzer.map_table(database_name.as_str(), table_name.as_str(), *table_id);
            Ok(None)
        },
        BinlogEvent::WriteRows { table_id, rows } => {
            write_rows_event(sql_analyzer, event_header, *table_id, rows)
        },
        BinlogEvent::Rotate | BinlogEvent::FormatDescription | BinlogEvent::Heartbeat
            | BinlogEvent::Xid | BinlogEvent::Unknown => Ok(None),
        BinlogEvent::Unsupported => Err(Error::Other("unsupported binlog event".to_owned())),
    }
}

/// Reconstructs one row against the column definitions.
fn build_row(cols: &Vec<(String, String)>, cells: &Vec<Option<String>>) -> (r: Value)
    ensures
        row_shape(cols.deep_view(), cells.deep_view(), r@),
{
    let limit = if cols.len() < cells.len() {
        cols.len()
    } else {
        cells.len()
    };
    let ghost pairs = row_pairs(cols.deep_view(), cells.deep_view());
    let mut entries: Vec<(String, Value)> = Vec::new();
    let mut j: usize = 0;
    proof {
        assert(pairs.len() == limit);
        assert forall|nm: Seq<char>| #![auto] pairs_lookup(pairs.take(0), nm) is None by {
            assert(pairs.take(0) =~= Seq::<(Seq<char>, ValueV)>::empty());
        }
    }
    while j < limit
        invariant
            j <= limit,
            limit <= cols@.len(),
            limit <= cells@.len(),
            pairs == row_pairs(cols.deep_view(), cells.deep_view()),
            pairs.len() == limit,
            obj_entries_sorted(entries.deep_view()),
            forall|q: int|
                0 <= q < entries.deep_view().len() ==> value_wf(
                    (#[trigger] entries.deep_view()[q]).1,
                ),
            forall|nm: Seq<char>| #![auto]
                obj_get(entries.deep_view(), nm) == pairs_lookup(pairs.take(j as int), nm),
        decreases limit - j,
    {
        let ghost before = entries.deep_view();
        let col = &cols[j];
        let cellv = match &cells[j] {
            Some(s) => Value::String(s.clone()),
            None => Value::Null,
        };
        proof {
            assert(pairs[j as int] == (cols.deep_view()[j as int].0, cell_value(
                cells.deep_view()[j as int],
            )));
            assert(cols.deep_view()[j as int].0 == col.0@);
            assert(cells.deep_view()[j as int] == (match cells@[j as int] {
                Some(s) => Some(s@),
                None => None::<Seq<char>>,
            }));
            assert(cellv@ == cell_value(cells.deep_view()[j as int]));
        }
        obj_insert_wf(&mut entries, col.0.clone(), cellv);
        proof {
            let prefix = pairs.take(j as int);
            let longer = pairs.take(j as int + 1);
            assert(longer.drop_last() =~= prefix);
            assert(longer.last() == pairs[j as int]);
            assert forall|nm: Seq<char>| #![auto]
                obj_get(entries.deep_view(), nm) == pairs_lookup(longer, nm) by {
                if nm != col.0@ {
                    assert(obj_get(entries.deep_view(), nm) == obj_get(before, nm));
                }
            }
        }
        j = j + 1;
    }
    proof {
        assert(pairs.take(limit as int) =~= pairs);
    }
    let r = Value::Object(entries);
    proof {
        lemma_object_model(r);
        lemma_entry_values_wf_index(entries.deep_view());
    }
    r
}

/// Translates a row-insert replication event against the cached table and
/// column definitions.
fn write_rows_event(
    sql_analyzer: &mut SqlAnalyzer,
    event_header: &BinlogEventHeader,
    table_id: u64,
    rows: &Vec<Vec<Option<String>>>,
) -> (r: Result<Option<Event>, Error>)
    ensures
        *final(sql_analyzer) == *old(sql_analyzer),
        !old(sql_analyzer).tables().contains_key(table_id) ==> (r matches Err(Error::SqlAnalyzer(
            e,
        )) && (e matches crate::sql_analyzer::Error::TableIdNotFound(t) && t == table_id)),
        old(sql_analyzer).tables().contains_key(table_id) && old(sql_analyzer).columns_of(
            old(sql_analyzer).tables()[table_id],
        ) is None ==> (r matches Err(Error::SqlAnalyzer(e)) && e is TableNotFound),
        old(sql_analyzer).tables().contains_key(table_id) && old(sql_analyzer).columns_of(
            old(sql_analyzer).tables()[table_id],
        ) is Some ==> (r matches Ok(Some(ev)) && insert_event_shape(
            old(sql_analyzer).tables()[table_id].0,
            old(sql_analyzer).tables()[table_id].1,
            old(sql_analyzer).columns_of(old(sql_analyzer).tables()[table_id])->Some_0,
            rows.deep_view(),
            *event_header,
            ev.value@,
        )),
{
    let (database, table) = match sql_analyzer.get_table_info(table_id) {
        Ok(p) => (p.0.clone(), p.1.clone()),
        Err(e) => {
            return Err(Error::SqlAnalyzer(e));
        },
    };
    let columns = match sql_analyzer.get_column_defs(table_id) {
        Ok(c) => c,
        Err(e) => {
            return Err(Error::SqlAnalyzer(e));
        },
    };
    let n = rows.len();
    let mut data: Vec<Value> = Vec::new();
    let mut i: usize = 0;
    while i < n
        invariant
            i <= n,
            n == rows@.len(),
            rows.deep_view().len() == n,
            data@.len() == i,
            data.deep_view().len() == i,
            old(sql_analyzer).tables().contains_key(table_id),
            columns.deep_view() == old(sql_analyzer).columns_of(
                old(sql_analyzer).tables()[table_id],
            )->Some_0,
            forall|q: int|
                0 <= q < i ==> row_shape(
                    columns.deep_view(),
                    rows.deep_view()[q],
                    (#[trigger] data.deep_view()[q]),
                ),
        decreases n - i,
    {
        let row = build_row(columns, &rows[i]);
        let ghost old_dv = data.deep_view();
        data.push(row);
        proof {
            assert(rows.deep_view()[i as int] == rows@[i as int].deep_view());
            assert(data.deep_view()[i as int] == row@);
            assert forall|q: int| 0 <= q < i implies data.deep_view()[q] == old_dv[q] by {
                assert(data.deep_view()[q] == data@[q].deep_view());
                assert(old_dv[q] == data@[q].deep_view());
            }
            assert forall|q: int|
                0 <= q < i + 1 implies row_shape(
                columns.deep_view(),
                rows.deep_view()[q],
                #[trigger] data.deep_view()[q],
            ) by {
                if q < i {
                    assert(data.deep_view()[q] == old_dv[q]);
                    assert(row_shape(columns.deep_view(), rows.deep_view()[q], old_dv[q]));
                } else {
                    assert(data.deep_view()[q] == row@);
                }
            }
        }
        i = i + 1;
    }
    proof {
        reveal_strlit("database");
        reveal_strlit("table");
        reveal_strlit("type");
        reveal_strlit("timestamp");
        reveal_strlit("server_id");
        reveal_strlit("data");
        assert("database"@.len() == 8 && "table"@.len() == 5 && "type"@.len() == 4
            && "timestamp"@.len() == 9 && "server_id"@.len() == 9 && "data"@.len() == 4);
        assert("database"@ != "table"@ && "database"@ != "type"@ && "database"@ != "timestamp"@
            && "database"@ != "server_id"@ && "database"@ != "data"@);
        assert("table"@ != "type"@ && "table"@ != "timestamp"@ && "table"@ != "server_id"@
            && "table"@ != "data"@);
        assert("type"@ != "timestamp"@ && "type"@ != "server_id"@);
        assert("type"@ != "data"@) by {
            if "type"@ == "data"@ {
                assert("type"@[0] == "data"@[0]);
            }
        }
        assert("timestamp"@ != "server_id"@) by {
            if "timestamp"@ == "server_id"@ {
                assert("timestamp"@[0] == "server_id"@[0]);
            }
        }
        assert("timestamp"@ != "data"@ && "server_id"@ != "data"@);
    }
    let data_value = Value::Array(data);
    proof {
        lemma_array_model(data_value);
        lemma_values_wf_index(data_value->Array_0.deep_view());
        assert forall|q: int|
            0 <= q < data_value->Array_0.deep_view().len() implies value_wf(
            #[trigger] data_value->Array_0.deep_view()[q],
        ) by {
            assert(data_value->Array_0.deep_view()[q] == data.deep_view()[q]);
            assert(row_shape(columns.deep_view(), rows.deep_view()[q], data.deep_view()[q]));
        }
        assert(value_wf(data_value@));
    }
    let ghost data_model = data_value@;
    let mut entries: Vec<(String, Value)> = Vec::new();
    obj_insert_wf(&mut entries, "database".to_owned(), Value::String(database));
    obj_insert_wf(&mut entries, "table".to_owned(), Value::String(table));
    obj_insert_wf(&mut entries, "type".to_owned(), Value::String("insert".to_owned()));
    obj_insert_wf(
        &mut entries,
        "timestamp".to_owned(),
        Value::TimeStamp(event_header.timestamp as i64),
    );
    obj_insert_wf(&mut entries, "server_id".to_owned(), Value::UInt(event_header.server_id as u64));
    obj_insert_wf(&mut entries, "data".to_owned(), data_value);
    let out = Value::Object(entries);
    proof {
        lemma_object_model(out);
        lemma_entry_values_wf_index(entries.deep_view());
    }
    let ev = Event::from_value(out);
    proof {
        assert(insert_event_shape(
            old(sql_analyzer).tables()[table_id].0,
            old(sql_analyzer).tables()[table_id].1,
            columns.deep_view(),
            rows.deep_view(),
            *event_header,
            ev.value@,
        ));
    }
    Ok(Some(ev))
}

} // verus!

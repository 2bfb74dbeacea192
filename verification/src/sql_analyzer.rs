//! The SQL analyzer: parses query text from the replication stream with a
//! MySQL dialect, reduces each statement to the fields the pipeline reads,
//! and keeps the collector's caches — the ephemeral table-id map and the
//! per-table column definitions learned from `CREATE TABLE`.

use vstd::prelude::*;
use std::collections::HashMap;
use crate::text::str_eq;
use crate::value::Value;
use crate::value::ValueV;
use crate::value::obj_get;
use crate::value::obj_insert;
use crate::value::obj_entries_sorted;
use crate::value::value_wf;
use crate::value::lemma_entry_values_wf_index;
use crate::value::lemma_object_model;
use crate::value::lemma_wf_values_after_insert;

verus! {

#[verifier::external_type_specification]
#[verifier::external_body]
pub struct ExParserError(sqlparser::parser::ParserError);

/// The parts of one SQL statement that the pipeline reads: its class, the
/// table it names, and for a table creation the column names with their SQL
/// type text.
#[derive(Debug, PartialEq)]
pub enum SqlStatement {
    Insert { table: String },
    CreateTable { table: String, columns: Vec<(String, String)> },
    CreateDatabase,
    Other,
}

/// An analyzer failure.
#[derive(Debug, PartialEq)]
pub enum Error {
    Parse(String),
    TableIdNotFound(u64),
    TableNotFound(String, String),
    Other(String),
}

/// The statements sqlparser's MySQL-dialect parser reads from a text, each
/// reduced to the fields this library reads, or nothing when the text does
/// not parse.  The outcome depends on the text alone.
pub uninterp spec fn mysql_parse(sql: Seq<char>) -> Option<Seq<SqlStatement>>;

/// Relies on sqlparser's `Parser::parse_sql` with `MySqlDialect` and on the
/// AST's `Display` implementations: the statement list parsed from `sql` is
/// a function of the text alone, parsing fails exactly when that function
/// has no value, and each statement is reduced to the fields this library
/// reads — the statement class, the table name, and the column names with
/// their SQL type text.
#[verifier::external_body]
fn parse_mysql(sql: &str) -> (r: Result<Vec<SqlStatement>, sqlparser::parser::ParserError>)
    ensures
        r is Ok <==> mysql_parse(sql@) is Some,
        r matches Ok(v) ==> Some(v@) == mysql_parse(sql@),
{
    sqlparser::parser::Parser::parse_sql(&sqlparser::dialect::MySqlDialect {}, sql).map(|stmts| {
        stmts.iter().map(|st| match st {
            sqlparser::ast::Statement::Insert(i) => SqlStatement::Insert { table: i.table.to_string() },
            sqlparser::ast::Statement::CreateTable(c) => SqlStatement::CreateTable {
                table: c.name.to_string(),
                columns: c.columns.iter().map(|col| (col.name.to_string(), col.data_type.to_string())).collect(),
            },
            sqlparser::ast::Statement::CreateDatabase { .. } => SqlStatement::CreateDatabase,
            _ => SqlStatement::Other,
        }).collect()
    })
}

/// Relies on `ParserError`'s `Display` implementation: the parser's failure
/// text, carried into this library's error value.
#[verifier::external_body]
fn parser_error_text(e: &sqlparser::parser::ParserError) -> (r: String) {
    format!("{e}")
}

/// The SQL type text of the last column named `name`, as `CREATE TABLE`
/// column handling keeps the last definition of a repeated name.
pub open spec fn cols_lookup(cols: Seq<(Seq<char>, Seq<char>)>, name: Seq<char>) -> Option<
    Seq<char>,
>
    decreases cols.len(),
{
    if cols.len() == 0 {
        None
    } else if cols.last().0 == name {
        Some(cols.last().1)
    } else {
        cols_lookup(cols.drop_last(), name)
    }
}

/// The columns mapping of a table-creation value: one member for each
/// distinct column name, holding the SQL type text of its last definition.
pub open spec fn cols_object_shape(
    cols: Seq<(Seq<char>, Seq<char>)>,
    entries: Seq<(Seq<char>, ValueV)>,
) -> bool {
    forall|n: Seq<char>|
        #![auto]
        obj_get(entries, n) == (match cols_lookup(cols, n) {
            Some(t) => Some(ValueV::String(t)),
            None => None::<ValueV>,
        })
}

/// The value emitted for a plain `INSERT` statement.
pub open spec fn insert_value_shape(db: Seq<char>, table: Seq<char>, out: ValueV) -> bool {
    &&& out is Object
    &&& out->Object_0.len() == 3
    &&& obj_get(out->Object_0, "type"@) == Some(ValueV::String("insert"@))
    &&& obj_get(out->Object_0, "database"@) == Some(ValueV::String(db))
    &&& obj_get(out->Object_0, "table"@) == Some(ValueV::String(table))
    &&& value_wf(out)
}

/// The value emitted for a `CREATE TABLE` statement.
pub open spec fn table_create_value_shape(
    db: Seq<char>,
    table: Seq<char>,
    cols: Seq<(Seq<char>, Seq<char>)>,
    out: ValueV,
) -> bool {
    &&& out is Object
    &&& out->Object_0.len() == 4
    &&& obj_get(out->Object_0, "type"@) == Some(ValueV::String("table-create"@))
    &&& obj_get(out->Object_0, "database"@) == Some(ValueV::String(db))
    &&& obj_get(out->Object_0, "table"@) == Some(ValueV::String(table))
    &&& (obj_get(out->Object_0, "columns"@) matches Some(c) && c is Object && cols_object_shape(
        cols,
        c->Object_0,
    ))
    &&& value_wf(out)
}

/// The value emitted for a `CREATE DATABASE` statement.
pub open spec fn database_create_value_shape(db: Seq<char>, out: ValueV) -> bool {
    &&& out is Object
    &&& out->Object_0.len() == 2
    &&& obj_get(out->Object_0, "type"@) == Some(ValueV::String("database-create"@))
    &&& obj_get(out->Object_0, "database"@) == Some(ValueV::String(db))
    &&& value_wf(out)
}

/// The collector's stream-built caches: table id to table reference, and
/// table reference to column definitions.
pub struct SqlAnalyzer {
    table_map: HashMap<u64, (String, String)>,
    columns_map: Vec<((String, String), Vec<(String, String)>)>,
}

/// Looks a table reference up in the column cache's entry list.
pub open spec fn cols_get(
    entries: Seq<((Seq<char>, Seq<char>), Seq<(Seq<char>, Seq<char>)>)>,
    key: (Seq<char>, Seq<char>),
) -> Option<Seq<(Seq<char>, Seq<char>)>>
    decreases entries.len(),
{
    if entries.len() == 0 {
        None
    } else if entries[0].0 == key {
        Some(entries[0].1)
    } else {
        cols_get(entries.drop_first(), key)
    }
}

proof fn lemma_cols_get_index(
    entries: Seq<((Seq<char>, Seq<char>), Seq<(Seq<char>, Seq<char>)>)>,
    key: (Seq<char>, Seq<char>),
    i: int,
)
    requires
        0 <= i < entries.len(),
        entries[i].0 == key,
        forall|j: int| 0 <= j < i ==> entries[j].0 != key,
    ensures
        cols_get(entries, key) == Some(entries[i].1),
    decreases i,
{
    if i > 0 {
        lemma_cols_get_index(entries.drop_first(), key, i - 1);
    }
}

proof fn lemma_cols_get_absent(
    entries: Seq<((Seq<char>, Seq<char>), Seq<(Seq<char>, Seq<char>)>)>,
    key: (Seq<char>, Seq<char>),
)
    requires
        forall|j: int| 0 <= j < entries.len() ==> entries[j].0 != key,
    ensures
        cols_get(entries, key) is None,
    decreases entries.len(),
{
    if entries.len() > 0 {
        lemma_cols_get_absent(entries.drop_first(), key);
    }
}

proof fn lemma_cols_get_frame(
    oldv: Seq<((Seq<char>, Seq<char>), Seq<(Seq<char>, Seq<char>)>)>,
    newv: Seq<((Seq<char>, Seq<char>), Seq<(Seq<char>, Seq<char>)>)>,
    i: int,
    k2: (Seq<char>, Seq<char>),
)
    requires
        0 <= i < oldv.len(),
        newv.len() == oldv.len(),
        oldv[i].0 == newv[i].0,
        oldv[i].0 != k2,
        forall|j: int| 0 <= j < oldv.len() && j != i ==> newv[j] == oldv[j],
    ensures
        cols_get(newv, k2) == cols_get(oldv, k2),
    decreases oldv.len(),
{
    if oldv.len() > 0 {
        if i == 0 {
            assert(newv.drop_first() =~= oldv.drop_first());
        } else if oldv[0].0 != k2 {
            lemma_cols_get_frame(oldv.drop_first(), newv.drop_first(), i - 1, k2);
        }
    }
}

impl SqlAnalyzer {
    /// The table-id cache, as a mapping from id to database and table name.
    pub closed spec fn tables(&self) -> Map<u64, (Seq<char>, Seq<char>)> {
        self.table_map@.map_values(|p: (String, String)| (p.0@, p.1@))
    }

    /// The column definitions cached for a table, in declaration order.
    pub closed spec fn columns_of(&self, key: (Seq<char>, Seq<char>)) -> Option<
        Seq<(Seq<char>, Seq<char>)>,
    > {
        cols_get(self.columns_map.deep_view(), key)
    }

    /// A fresh analyzer with empty caches.
    pub fn new() -> (r: Self)
        ensures
            r.tables() == Map::<u64, (Seq<char>, Seq<char>)>::empty(),
            forall|k: (Seq<char>, Seq<char>)| r.columns_of(k) is None,
    {
        let r = SqlAnalyzer { table_map: HashMap::new(), columns_map: Vec::new() };
        proof {
            assert(r.tables() =~= Map::<u64, (Seq<char>, Seq<char>)>::empty());
            assert forall|k: (Seq<char>, Seq<char>)| r.columns_of(k) is None by {
                assert(r.columns_map.deep_view().len() == 0);
            }
        }
        r
    }

    /// Records that the stream maps table id `id` to `(database, table)`;
    /// a later mapping for the same id wins.
    pub fn map_table(&mut self, database: &str, table: &str, id: u64)
        ensures
            final(self).tables() == old(self).tables().insert(id, (database@, table@)),
            forall|k: (Seq<char>, Seq<char>)| #![auto]
                final(self).columns_of(k) == old(self).columns_of(k),
    {
        self.table_map.insert(id, (database.to_owned(), table.to_owned()));
        proof {
            assert(final(self).tables() =~= old(self).tables().insert(id, (database@, table@)));
        }
    }

    /// The table reference recorded for a table id, or `TableIdNotFound`.
    pub fn get_table_info(&self, table_id: u64) -> (r: Result<&(String, String), Error>)
        ensures
            match r {
                Ok(p) => self.tables().contains_key(table_id) && self.tables()[table_id] == (
                    p.0@,
                    p.1@,
                ),
                Err(e) => !self.tables().contains_key(table_id) && (e matches
                    Error::TableIdNotFound(t) && t == table_id),
            },
    {
        match self.table_map.get(&table_id) {
            Some(p) => Ok(p),
            None => Err(Error::TableIdNotFound(table_id)),
        }
    }

    /// The column definitions recorded for a table id: `TableIdNotFound`
    /// when the id is unknown, `TableNotFound` when no `CREATE TABLE` for
    /// the referenced table has been seen.
    pub fn get_column_defs(&self, table_id: u64) -> (r: Result<&Vec<(String, String)>, Error>)
        ensures
            match r {
                Ok(cols) => self.tables().contains_key(table_id) && self.columns_of(
                    self.tables()[table_id],
                ) == Some(cols.deep_view()),
                Err(e) => match e {
                    Error::TableIdNotFound(t) => t == table_id && !self.tables().contains_key(
                        table_id,
                    ),
                    Error::TableNotFound(d, t) => self.tables().contains_key(table_id)
                        && self.tables()[table_id] == (d@, t@) && self.columns_of(
                        (d@, t@),
                    ) is None,
                    _ => false,
                },
            },
    {
        let table_ref = match self.table_map.get(&table_id) {
            Some(p) => p,
            None => {
                proof {
                    assert(!self.tables().contains_key(table_id));
                }
                return Err(Error::TableIdNotFound(table_id));
            },
        };
        proof {
            assert(self.tables().contains_key(table_id));
            assert(self.tables()[table_id] == (table_ref.0@, table_ref.1@));
        }
        let n = self.columns_map.len();
        let mut i: usize = 0;
        while i < n
            invariant
                i <= n,
                n == self.columns_map@.len(),
                self.tables().contains_key(table_id),
                self.tables()[table_id] == (table_ref.0@, table_ref.1@),
                forall|j: int|
                    0 <= j < i ==> (#[trigger] self.columns_map.deep_view()[j]).0 != (
                    table_ref.0@,
                    table_ref.1@,
                ),
            decreases n - i,
        {
            let entry = &self.columns_map[i];
            if str_eq(entry.0.0.as_str(), table_ref.0.as_str()) && str_eq(
                entry.0.1.as_str(),
                table_ref.1.as_str(),
            ) {
                proof {
                    assert(self.columns_map.deep_view()[i as int].0 == (
                        entry.0.0@,
                        entry.0.1@,
                    ));
                    assert(self.columns_map.deep_view()[i as int].1 == entry.1.deep_view());
                    lemma_cols_get_index(
                        self.columns_map.deep_view(),
                        (table_ref.0@, table_ref.1@),
                        i as int,
                    );
                    assert(self.tables().contains_key(table_id));
                    assert(self.tables()[table_id] == (table_ref.0@, table_ref.1@));
                }
                return Ok(&entry.1);
            }
            proof {
                assert(self.columns_map.deep_view()[i as int].0 == (
                    self.columns_map@[i as int].0.0@,
                    self.columns_map@[i as int].0.1@,
                ));
            }
            i = i + 1;
        }
        proof {
            lemma_cols_get_absent(self.columns_map.deep_view(), (table_ref.0@, table_ref.1@));
        }
        Err(Error::TableNotFound(table_ref.0.clone(), table_ref.1.clone()))
    }

    /// Installs the column definitions learned for `(database, table)`,
    /// replacing any earlier list.
    fn install_columns(&mut self, database: &str, table: &str, columns: Vec<(String, String)>)
        ensures
            final(self).tables() == old(self).tables(),
            final(self).columns_of((database@, table@)) == Some(columns.deep_view()),
            forall|k: (Seq<char>, Seq<char>)| #![auto]
                k != (database@, table@) ==> final(self).columns_of(k) == old(self).columns_of(k),
    {
        let ghost key = (database@, table@);
        let ghost oldv = self.columns_map.deep_view();
        let n = self.columns_map.len();
        let mut i: usize = 0;
        while i < n
            invariant
                i <= n,
                n == self.columns_map@.len(),
                *self == *old(self),
                key == (database@, table@),
                oldv == self.columns_map.deep_view(),
                forall|j: int| 0 <= j < i ==> (#[trigger] oldv[j]).0 != key,
            decreases n - i,
        {
            let hit = {
                let entry = &self.columns_map[i];
                str_eq(entry.0.0.as_str(), database) && str_eq(entry.0.1.as_str(), table)
            };
            proof {
                if !hit {
                    assert(oldv[i as int].0 == (
                        self.columns_map@[i as int].0.0@,
                        self.columns_map@[i as int].0.1@,
                    ));
                }
            }
            if hit {
                let ghost gi = i as int;
                let slot = &mut self.columns_map[i];
                let key_pair = (database.to_owned(), table.to_owned());
                *slot = (key_pair, columns);
                proof {
                    let newv = self.columns_map.deep_view();
                    assert(oldv.len() == old(self).columns_map@.len());
                    assert(self.columns_map@ == old(self).columns_map@.update(
                        gi,
                        self.columns_map@[gi],
                    ));
                    assert(newv.len() == oldv.len());
                    assert forall|j: int| 0 <= j < oldv.len() && j != gi implies newv[j]
                        == oldv[j] by {
                        assert(self.columns_map@[j] == old(self).columns_map@[j]);
                    }
                    assert(newv[gi].0 == key);
                    assert(newv[gi].1 == columns.deep_view());
                    lemma_cols_get_index(newv, key, gi);
                    assert forall|k: (Seq<char>, Seq<char>)| #![auto] k != key implies cols_get(
                        newv,
                        k,
                    ) == cols_get(oldv, k) by {
                        lemma_cols_get_frame(oldv, newv, gi, k);
                    }
                    assert(final(self).tables() =~= old(self).tables());
                }
                return ;
            }
            i = i + 1;
        }
        let key_pair = (database.to_owned(), table.to_owned());
        self.columns_map.push((key_pair, columns));
        proof {
            let newv = self.columns_map.deep_view();
            assert(oldv.len() == old(self).columns_map@.len());
            assert(newv.len() == oldv.len() + 1);
            assert(newv[oldv.len() as int].0 == key);
            assert(newv[oldv.len() as int].1 == columns.deep_view());
            assert forall|j: int| 0 <= j < oldv.len() implies newv[j] == oldv[j] by {
                assert(self.columns_map@[j] == old(self).columns_map@[j]);
            }
            lemma_cols_get_index(newv, key, oldv.len() as int);
            assert forall|k: (Seq<char>, Seq<char>)| #![auto] k != key implies cols_get(newv, k)
                == cols_get(oldv, k) by {
                lemma_cols_get_push_frame(oldv, newv, k);
            }
            assert(final(self).tables() =~= old(self).tables());
        }
    }
}

/// Inserts a string-valued member into a sorted entry list whose values are
/// all well formed, keeping both properties.
fn insert_text_entry(entries: &mut Vec<(String, Value)>, key: String, text: String)
    requires
        obj_entries_sorted(old(entries).deep_view()),
        forall|i: int|
            0 <= i < old(entries).deep_view().len() ==> value_wf(
                (#[trigger] old(entries).deep_view()[i]).1,
            ),
    ensures
        obj_entries_sorted(final(entries).deep_view()),
        forall|i: int|
            0 <= i < final(entries).deep_view().len() ==> value_wf(
                (#[trigger] final(entries).deep_view()[i]).1,
            ),
        obj_get(final(entries).deep_view(), key@) == Some(ValueV::String(text@)),
        forall|k2: Seq<char>|
            k2 != key@ ==> obj_get(final(entries).deep_view(), k2) == obj_get(
                old(entries).deep_view(),
                k2,
            ),
        obj_get(old(entries).deep_view(), key@) is Some ==> final(entries).deep_view().len() == old(
            entries,
        ).deep_view().len(),
        obj_get(old(entries).deep_view(), key@) is None ==> final(entries).deep_view().len() == old(
            entries,
        ).deep_view().len() + 1,
{
    crate::value::obj_insert_wf(entries, key, Value::String(text));
}

/// A fresh list with the same pairs of text.
fn copy_string_pairs(v: &Vec<(String, String)>) -> (r: Vec<(String, String)>)
    ensures
        r.deep_view() == v.deep_view(),
{
    let n = v.len();
    let mut r: Vec<(String, String)> = Vec::new();
    let mut i: usize = 0;
    proof {
        assert(r.deep_view() =~= v.deep_view().take(0));
    }
    while i < n
        invariant
            i <= n,
            n == v@.len(),
            r@.len() == i,
            r.deep_view() == v.deep_view().take(i as int),
        decreases n - i,
    {
        let pair = &v[i];
        let ghost old_r = r.deep_view();
        r.push((pair.0.clone(), pair.1.clone()));
        proof {
            let newdv = r.deep_view();
            let target = v.deep_view().take(i as int + 1);
            assert forall|j: int| 0 <= j < newdv.len() implies newdv[j] == target[j] by {
                if j < i {
                    assert(newdv[j] == (r@[j].0@, r@[j].1@));
                    assert(old_r[j] == (r@[j].0@, r@[j].1@));
                    assert(target[j] == v.deep_view()[j]);
                } else {
                    assert(newdv[j] == (v@[i as int].0@, v@[i as int].1@));
                    assert(target[j] == v.deep_view()[i as int]);
                    assert(v.deep_view()[i as int] == (v@[i as int].0@, v@[i as int].1@));
                }
            }
            assert(newdv =~= target);
        }
        i = i + 1;
    }
    proof {
        assert(v.deep_view().take(n as int) =~= v.deep_view());
    }
    r
}

/// What one analyzed statement does: the value it emits and how it changes
/// the analyzer's caches.
pub open spec fn statement_effect(
    pre: SqlAnalyzer,
    post: SqlAnalyzer,
    db: Seq<char>,
    stmt: SqlStatement,
    out: ValueV,
) -> bool {
    match stmt {
        SqlStatement::Insert { table } => insert_value_shape(db, table@, out) && post.tables()
            == pre.tables() && (forall|k: (Seq<char>, Seq<char>)| #![auto]
            post.columns_of(k) == pre.columns_of(k)),
        SqlStatement::CreateTable { table, columns } => table_create_value_shape(
            db,
            table@,
            columns.deep_view(),
            out,
        ) && post.tables() == pre.tables() && post.columns_of((db, table@)) == Some(
            columns.deep_view(),
        ) && (forall|k: (Seq<char>, Seq<char>)| #![auto]
            k != (db, table@) ==> post.columns_of(k) == pre.columns_of(k)),
        SqlStatement::CreateDatabase => database_create_value_shape(db, out) && post.tables()
            == pre.tables() && (forall|k: (Seq<char>, Seq<char>)| #![auto]
            post.columns_of(k) == pre.columns_of(k)),
        SqlStatement::Other => out == ValueV::Null && post.tables() == pre.tables() && (forall|
            k: (Seq<char>, Seq<char>),
        | #![auto]
            post.columns_of(k) == pre.columns_of(k)),
    }
}

impl SqlAnalyzer {
    /// Turns one reduced statement into the value the collector merges into
    /// its event — or null for a statement class the pipeline drops — and
    /// installs the column definitions a table creation declares.
    pub fn apply_statement(&mut self, database: &str, statement: &SqlStatement) -> (r: Value)
        ensures
            statement_effect(*old(self), *final(self), database@, *statement, r@),
    {
        proof {
            reveal_strlit("type");
            reveal_strlit("database");
            reveal_strlit("table");
            reveal_strlit("columns");
            assert("type"@.len() == 4 && "database"@.len() == 8 && "table"@.len() == 5
                && "columns"@.len() == 7);
            assert("type"@ != "database"@ && "type"@ != "table"@ && "type"@ != "columns"@);
            assert("database"@ != "table"@ && "database"@ != "columns"@);
            assert("table"@ != "columns"@);
        }
        match statement {
            SqlStatement::Insert { table } => {
                let mut entries: Vec<(String, Value)> = Vec::new();
                insert_text_entry(&mut entries, "type".to_owned(), "insert".to_owned());
                insert_text_entry(&mut entries, "database".to_owned(), database.to_owned());
                insert_text_entry(&mut entries, "table".to_owned(), table.clone());
                let r = Value::Object(entries);
                proof {
                    lemma_object_model(r);
                    lemma_entry_values_wf_index(entries.deep_view());
                    assert(insert_value_shape(database@, table@, r@));
                }
                r
            },
            SqlStatement::CreateTable { table, columns } => {
                // the columns mapping: the last definition of a repeated
                // column name wins, as a mapping insert does
                let m = columns.len();
                let mut col_entries: Vec<(String, Value)> = Vec::new();
                let mut i: usize = 0;
                proof {
                    assert(columns.deep_view().take(0) =~= Seq::<(Seq<char>, Seq<char>)>::empty());
                }
                while i < m
                    invariant
                        i <= m,
                        m == columns@.len(),
                        obj_entries_sorted(col_entries.deep_view()),
                        forall|q: int|
                            0 <= q < col_entries.deep_view().len() ==> value_wf(
                                (#[trigger] col_entries.deep_view()[q]).1,
                            ),
                        cols_object_shape(
                            columns.deep_view().take(i as int),
                            col_entries.deep_view(),
                        ),
                    decreases m - i,
                {
                    let ghost prefix = columns.deep_view().take(i as int);
                    let ghost oldcols = col_entries.deep_view();
                    let col = &columns[i];
                    proof {
                        assert(columns.deep_view()[i as int] == (col.0@, col.1@));
                    }
                    insert_text_entry(&mut col_entries, col.0.clone(), col.1.clone());
                    proof {
                        let longer = columns.deep_view().take(i as int + 1);
                        assert(longer.drop_last() =~= prefix);
                        assert(longer.last() == columns.deep_view()[i as int]);
                        assert forall|nm: Seq<char>| #![auto]
                            obj_get(col_entries.deep_view(), nm) == (match cols_lookup(
                            longer,
                            nm,
                        ) {
                            Some(t) => Some(ValueV::String(t)),
                            None => None::<ValueV>,
                        }) by {
                            if nm != col.0@ {
                                assert(obj_get(col_entries.deep_view(), nm) == obj_get(
                                    oldcols,
                                    nm,
                                ));
                            }
                        }
                    }
                    i = i + 1;
                }
                proof {
                    assert(columns.deep_view().take(m as int) =~= columns.deep_view());
                }
                let columns_value = Value::Object(col_entries);
                proof {
                    lemma_object_model(columns_value);
                    lemma_entry_values_wf_index(columns_value->Object_0.deep_view());
                    assert(value_wf(columns_value@));
                }
                let ghost cols_model = columns_value@;
                let mut entries: Vec<(String, Value)> = Vec::new();
                insert_text_entry(&mut entries, "type".to_owned(), "table-create".to_owned());
                insert_text_entry(&mut entries, "database".to_owned(), database.to_owned());
                insert_text_entry(&mut entries, "table".to_owned(), table.clone());
                let ghost before_cols = entries.deep_view();
                obj_insert(&mut entries, "columns".to_owned(), columns_value);
                proof {
                    lemma_wf_values_after_insert(before_cols, entries.deep_view(), cols_model);
                }
                let copy = copy_string_pairs(columns);
                self.install_columns(database, table, copy);
                let r = Value::Object(entries);
                proof {
                    lemma_object_model(r);
                    lemma_entry_values_wf_index(entries.deep_view());
                    assert(table_create_value_shape(database@, table@, columns.deep_view(), r@));
                }
                r
            },
            SqlStatement::CreateDatabase => {
                let mut entries: Vec<(String, Value)> = Vec::new();
                insert_text_entry(&mut entries, "type".to_owned(), "database-create".to_owned());
                insert_text_entry(&mut entries, "database".to_owned(), database.to_owned());
                let r = Value::Object(entries);
                proof {
                    lemma_object_model(r);
                    lemma_entry_values_wf_index(entries.deep_view());
                    assert(database_create_value_shape(database@, r@));
                }
                r
            },
            SqlStatement::Other => Value::Null,
        }
    }

    /// Analyzes one SQL text from the query stream: parses it with the
    /// MySQL dialect, rejects a batch of more than one statement, and turns
    /// the single statement into the value the collector merges into its
    /// event.  A null value tells the collector to drop the query event.
    pub fn analyze(&mut self, database: &str, sql: &str) -> (r: Result<Value, Error>)
        ensures
            mysql_parse(sql@) is None <==> (r matches Err(e) && e is Parse),
            (mysql_parse(sql@) matches Some(sts) && sts.len() != 1) <==> (r matches Err(e) && (e
                matches Error::Other(m) && m@ == "multiple statements in one sql"@)),
            r is Err ==> final(self).tables() == old(self).tables() && (forall|
                k: (Seq<char>, Seq<char>),
            | #![auto]
                final(self).columns_of(k) == old(self).columns_of(k)),
            mysql_parse(sql@) matches Some(sts) ==> (sts.len() == 1 ==> (r matches Ok(v)
                && statement_effect(*old(self), *final(self), database@, sts[0], v@))),
            r matches Ok(v) ==> value_wf(v@) && (v@ is Object || v@ is Null),
    {
        let statements = match parse_mysql(sql) {
            Ok(v) => v,
            Err(e) => {
                return Err(Error::Parse(parser_error_text(&e)));
            },
        };
        if statements.len() != 1 {
            return Err(Error::Other("multiple statements in one sql".to_owned()));
        }
        let value = self.apply_statement(database, &statements[0]);
        proof {
            assert(statements@[0] == mysql_parse(sql@)->Some_0[0]);
            assert(value_wf(value@) && (value@ is Object || value@ is Null));
        }
        Ok(value)
    }
}

proof fn lemma_cols_get_push_frame(
    oldv: Seq<((Seq<char>, Seq<char>), Seq<(Seq<char>, Seq<char>)>)>,
    newv: Seq<((Seq<char>, Seq<char>), Seq<(Seq<char>, Seq<char>)>)>,
    k2: (Seq<char>, Seq<char>),
)
    requires
        newv.len() == oldv.len() + 1,
        newv[newv.len() - 1].0 != k2,
        forall|j: int| 0 <= j < oldv.len() ==> newv[j] == oldv[j],
    ensures
        cols_get(newv, k2) == cols_get(oldv, k2),
    decreases oldv.len(),
{
    if oldv.len() == 0 {
        assert(newv[0].0 != k2);
    } else if oldv[0].0 != k2 {
        assert forall|j: int| 0 <= j < oldv.drop_first().len() implies newv.drop_first()[j]
            == oldv.drop_first()[j] by {
            assert(newv[j + 1] == oldv[j + 1]);
        }
        lemma_cols_get_push_frame(oldv.drop_first(), newv.drop_first(), k2);
    }
}

} // verus!

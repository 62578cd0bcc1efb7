//! The host's side of WASM programs: the databases that programs query and the protocol by which
//! a program is handed a request and answers it.
//!
//! A program exports `guest_alloc(len) -> ptr`, by which the host gets memory to write the request
//! to, and `attest(ptr, len) -> u64`, which returns the place of the answer in the program's
//! memory: the pointer in the upper half, the length in the lower half.

use crate::error::{CraftSecError, Result};
use crate::float;
use crate::float::Float;
use crate::hashing;
use crate::hashing::hex_encode;
use crate::json;
use crate::json::{push_json, push_quoted, Json, JsonNumber};
use crate::model::{AttestationRequest, AttestationResult, Transaction};
use crate::sql;
use crate::sql::names_pragma;
use crate::string_map::StringMap;
use crate::text;
use crate::text::{append_bytes, decoded, joined, same_text};
use vstd::hash_map::StringHashMap;
use vstd::prelude::*;
use vstd::string::*;
use vstd::utf8::*;

verus! {

/// A value of a database column or a query parameter. A floating-point number is held by its bits,
/// whether it is finite or not.
#[derive(Debug)]
pub enum SqlValue {
    /// Nothing.
    Null,
    /// An integer.
    Integer(i64),
    /// A floating-point number.
    Real(u64),
    /// Text.
    Text(String),
    /// Bytes.
    Blob(Vec<u8>),
}

/// What a value of a database is. Text is taken by its bytes, which need not be UTF-8.
pub ghost enum SqlModel {
    Null,
    Integer(i64),
    Real(u64),
    Text(Seq<u8>),
    Blob(Seq<u8>),
}

impl View for SqlValue {
    type V = SqlModel;

    open spec fn view(&self) -> SqlModel {
        match *self {
            SqlValue::Null => SqlModel::Null,
            SqlValue::Integer(i) => SqlModel::Integer(i),
            SqlValue::Real(bits) => SqlModel::Real(bits),
            SqlValue::Text(s) => SqlModel::Text(encode_utf8(s@)),
            SqlValue::Blob(b) => SqlModel::Blob(b@),
        }
    }
}

/// What a list of values is.
pub open spec fn sql_models(values: Seq<SqlValue>) -> Seq<SqlModel> {
    Seq::new(values.len(), |i: int| values[i]@)
}

/// The query parameter that a JSON value becomes: text, numbers, truth values and nothing as what
/// they are, anything else as its JSON text.
pub open spec fn bound(value: json::JsonModel) -> SqlModel {
    match value {
        json::JsonModel::Text(s) => SqlModel::Text(encode_utf8(s)),
        json::JsonModel::Number(n) => match json::signed_integer(n) {
            Some(i) => SqlModel::Integer(i),
            None => SqlModel::Real(json::number_bits(n)),
        },
        json::JsonModel::Bool(b) => SqlModel::Integer(
            if b {
                1
            } else {
                0
            },
        ),
        json::JsonModel::Null => SqlModel::Null,
        _ => SqlModel::Text(encode_utf8(json::json_text(value))),
    }
}

/// The query parameters that JSON values become.
pub open spec fn all_bound(values: Seq<json::JsonModel>) -> Seq<SqlModel> {
    Seq::new(values.len(), |i: int| bound(values[i]))
}

/// The query parameters that a text stands for: those of a JSON array, and none if it is not the
/// text of one.
pub open spec fn query_params(text: Seq<char>) -> Seq<SqlModel> {
    match json::parsed(text) {
        Ok(json::JsonModel::List(values)) => all_bound(values),
        _ => Seq::empty(),
    }
}

/// The query parameter that a JSON value becomes.
pub fn bind_param(value: &Json) -> (r: SqlValue)
    ensures
        r@ == bound(value@),
{
    match value {
        Json::Text(s) => SqlValue::Text(s.clone()),
        Json::Number(n) => match *n {
            JsonNumber::PosInt(i) if i <= 0x7fff_ffff_ffff_ffff => SqlValue::Integer(i as i64),
            JsonNumber::NegInt(i) => SqlValue::Integer(i),
            _ => {
                let f = value.as_float().unwrap();
                SqlValue::Real(f.to_bits())
            },
        },
        Json::Bool(b) => SqlValue::Integer(
            if *b {
                1
            } else {
                0
            },
        ),
        Json::Null => SqlValue::Null,
        _ => SqlValue::Text(value.to_text()),
    }
}

/// The query parameters that JSON values become.
pub fn bind_params(values: &Vec<Json>) -> (r: Vec<SqlValue>)
    ensures
        sql_models(r@) == all_bound(json::list_model(values@)),
{
    proof {
        json::lemma_list_model(values@);
    }
    let mut params: Vec<SqlValue> = Vec::new();
    let mut k: usize = 0;
    while k < values.len()
        invariant
            k <= values@.len(),
            params@.len() == k,
            forall|i: int| 0 <= i < k ==> (#[trigger] params@[i])@ == bound(values@[i]@),
        decreases values@.len() - k,
    {
        params.push(bind_param(&values[k]));
        k = k + 1;
    }
    assert(sql_models(params@) =~= all_bound(json::list_model(values@)));
    params
}

/// The query parameters that a text stands for.
pub fn read_params(text: &str) -> (r: Vec<SqlValue>)
    ensures
        sql_models(r@) == query_params(text@),
{
    match Json::parse(text) {
        Ok(Json::List(values)) => bind_params(&values),
        _ => {
            let params: Vec<SqlValue> = Vec::new();
            assert(sql_models(params@) =~= query_params(text@));
            params
        },
    }
}

/// The number that an integer is in JSON.
pub open spec fn integer_number(i: i64) -> JsonNumber {
    if i >= 0 {
        JsonNumber::PosInt(i as u64)
    } else {
        JsonNumber::NegInt(i)
    }
}

/// What a column's value is in JSON: bytes become hexadecimal text, and a floating-point number
/// that is not finite becomes null.
pub open spec fn column_model(value: SqlModel) -> json::JsonModel {
    match value {
        SqlModel::Null => json::JsonModel::Null,
        SqlModel::Integer(i) => json::JsonModel::Number(integer_number(i)),
        SqlModel::Real(bits) => if float::is_finite(bits) {
            json::JsonModel::Number(JsonNumber::Float(Float::with_bits(bits)))
        } else {
            json::JsonModel::Null
        },
        SqlModel::Text(bytes) => json::JsonModel::Text(decode_utf8(bytes)),
        SqlModel::Blob(bytes) => json::JsonModel::Text(hashing::hex_text(bytes)),
    }
}

/// What a row of columns is in JSON: an array.
pub open spec fn row_model(row: Seq<SqlModel>) -> json::JsonModel {
    json::JsonModel::List(Seq::new(row.len(), |i: int| column_model(row[i])))
}

/// What rows are in JSON: an array of arrays.
pub open spec fn table_model(rows: Seq<Option<Vec<SqlValue>>>) -> json::JsonModel {
    json::JsonModel::List(
        Seq::new(rows.len(), |i: int| row_model(sql_models(rows[i]->Some_0@))),
    )
}

/// Every row could be read.
pub open spec fn all_read(rows: Seq<Option<Vec<SqlValue>>>) -> bool {
    forall|i: int| 0 <= i < rows.len() ==> #[trigger] rows[i] is Some
}

/// The rows of a query, unless it failed.
pub open spec fn listed_rows(rows: Option<Vec<Option<Vec<SqlValue>>>>) -> Option<
    Seq<Option<Vec<SqlValue>>>,
> {
    match rows {
        Some(table) => Some(table@),
        None => None,
    }
}

/// The answer to a query, given its rows, each of which could be read or not, or that the query
/// failed: the rows in JSON, or an empty array unless there are rows that could all be read.
pub open spec fn answer_text(rows: Option<Seq<Option<Vec<SqlValue>>>>) -> Seq<char> {
    match rows {
        Some(table) => if all_read(table) {
            json::json_text(table_model(table))
        } else {
            "[]"@
        },
        None => "[]"@,
    }
}

/// What a column's value is in JSON.
pub fn column_json(value: &SqlValue) -> (r: Json)
    ensures
        r@ == column_model(value@),
{
    match value {
        SqlValue::Null => Json::Null,
        SqlValue::Integer(i) => {
            if *i >= 0 {
                Json::Number(JsonNumber::PosInt(*i as u64))
            } else {
                Json::Number(JsonNumber::NegInt(*i))
            }
        },
        SqlValue::Real(bits) => match Float::from_bits(*bits) {
            Some(f) => Json::Number(JsonNumber::Float(f)),
            None => Json::Null,
        },
        SqlValue::Text(s) => {
            proof {
                encode_utf8_decode_utf8(s@);
            }
            Json::Text(s.clone())
        },
        SqlValue::Blob(b) => Json::Text(hex_encode(b.as_slice())),
    }
}

fn row_json(row: &Vec<SqlValue>) -> (r: Json)
    ensures
        r@ == row_model(sql_models(row@)),
{
    let mut items: Vec<Json> = Vec::new();
    let mut k: usize = 0;
    while k < row.len()
        invariant
            k <= row@.len(),
            items@.len() == k,
            forall|i: int| 0 <= i < k ==> (#[trigger] items@[i])@ == column_model(row@[i]@),
        decreases row@.len() - k,
    {
        items.push(column_json(&row[k]));
        k = k + 1;
    }
    proof {
        json::lemma_list_model(items@);
        assert(json::list_model(items@) =~= row_model(sql_models(row@))->List_0);
    }
    Json::List(items)
}

/// What rows are in JSON, if they could all be read.
fn table_json(rows: &Vec<Option<Vec<SqlValue>>>) -> (r: Option<Json>)
    ensures
        match r {
            Some(table) => all_read(rows@) && table@ == table_model(rows@),
            None => !all_read(rows@),
        },
{
    let mut items: Vec<Json> = Vec::new();
    let mut k: usize = 0;
    while k < rows.len()
        invariant
            k <= rows@.len(),
            items@.len() == k,
            forall|i: int| 0 <= i < k ==> #[trigger] rows@[i] is Some,
            forall|i: int|
                0 <= i < k ==> (#[trigger] items@[i])@ == row_model(
                    sql_models(rows@[i]->Some_0@),
                ),
        decreases rows@.len() - k,
    {
        match &rows[k] {
            Some(row) => items.push(row_json(row)),
            None => {
                return None;
            },
        }
        k = k + 1;
    }
    proof {
        json::lemma_list_model(items@);
        assert(json::list_model(items@) =~= table_model(rows@)->List_0);
    }
    Some(Json::List(items))
}

/// The answer to a query, given its rows, each of which could be read or not, or that the query
/// failed.
pub fn query_answer(rows: &Option<Vec<Option<Vec<SqlValue>>>>) -> (r: String)
    ensures
        r@ == answer_text(listed_rows(*rows)),
{
    match rows {
        Some(table) => match table_json(table) {
            Some(model) => model.to_text(),
            None => "[]".to_owned(),
        },
        None => "[]".to_owned(),
    }
}

/// What a database is told to do, and what came of it.
pub ghost enum Statement {
    /// To run statements: nothing, or the message of an error.
    Batch(Seq<char>, core::result::Result<(), Seq<char>>),
    /// To tell whether a statement is read-only and how many columns its rows have, unless that
    /// failed.
    Check(Seq<char>, Option<(bool, usize)>),
    /// To run a query with parameters: its rows, each of which could be read or not, unless it
    /// failed.
    Query(Seq<char>, Seq<SqlModel>, Option<Seq<Option<Vec<SqlValue>>>>),
}

/// What came of running statements, errors by their messages.
pub open spec fn batch_outcome(r: core::result::Result<(), String>) -> core::result::Result<
    (),
    Seq<char>,
> {
    match r {
        Ok(_) => Ok(()),
        Err(e) => Err(e@),
    }
}

/// A query can be run for a program: it is read-only and its rows have columns. Statements without
/// columns, such as those that begin or end a transaction or attach another database, are no
/// queries even where they are read-only.
pub open spec fn may_run(check: Option<(bool, usize)>) -> bool {
    check matches Some((read_only, columns)) && read_only && columns > 0
}

/// A database that was asked a query was first asked whether it can be run; if it can, it was run.
/// Pragmas are passed over.
pub open spec fn queried(
    log: Seq<Statement>,
    sql: Seq<char>,
    params: Seq<SqlModel>,
    check: Option<(bool, usize)>,
    rows: Option<Seq<Option<Vec<SqlValue>>>>,
) -> Seq<Statement> {
    let checked = log.push(Statement::Check(sql, check));
    if sql::is_pragma(sql) {
        log
    } else if may_run(check) {
        checked.push(Statement::Query(sql, params, rows))
    } else {
        checked
    }
}

/// The answer to a query: its rows if it can be run, and an empty array otherwise and for pragmas.
pub open spec fn query_text(
    sql: Seq<char>,
    check: Option<(bool, usize)>,
    rows: Option<Seq<Option<Vec<SqlValue>>>>,
) -> Seq<char> {
    answer_text(
        if may_run(check) && !sql::is_pragma(sql) {
            rows
        } else {
            None
        },
    )
}

/// What a database was told is a check that found that the query can be run.
pub open spec fn clears(told: Statement, sql: Seq<char>) -> bool {
    told matches Statement::Check(checked, check) && checked == sql && may_run(check)
        && !sql::is_pragma(sql)
}

/// Every query that a database has run was found just before to be one that can be run, and is no
/// pragma.
pub open spec fn queries_checked(log: Seq<Statement>) -> bool {
    forall|i: int|
        0 <= i < log.len() ==> (#[trigger] log[i] matches Statement::Query(sql, _, _) ==> i > 0
            && clears(log[i - 1], sql))
}

/// Queries are checked: being asked a query, a database runs it only if it is no pragma and was
/// just found to be read-only and to have columns, and runs nothing else.
pub proof fn law_queries_checked(
    log: Seq<Statement>,
    sql: Seq<char>,
    params: Seq<SqlModel>,
    check: Option<(bool, usize)>,
    rows: Option<Seq<Option<Vec<SqlValue>>>>,
)
    requires
        queries_checked(log),
    ensures
        queries_checked(queried(log, sql, params, check, rows)),
        forall|i: int|
            log.len() <= i < queried(log, sql, params, check, rows).len() ==> !(#[trigger] queried(
                log,
                sql,
                params,
                check,
                rows,
            )[i] is Batch),
{
    let after = queried(log, sql, params, check, rows);
    assert forall|i: int| 0 <= i < after.len() implies (#[trigger] after[i] matches Statement::Query(
        text,
        _,
        _,
    ) ==> i > 0 && clears(after[i - 1], text)) by {
        if i < log.len() {
            assert(after[i] == log[i]);
            if i > 0 {
                assert(after[i - 1] == log[i - 1]);
            }
        }
    }
}

/// A connection to a database.
#[verifier::external_type_specification]
#[verifier::external_body]
pub struct ExConnection(rusqlite::Connection);

/// An error of a database.
#[verifier::external_type_specification]
#[verifier::external_body]
pub struct ExSqliteError(rusqlite::Error);

/// A value as the database library holds it.
#[verifier::external_type_specification]
#[verifier::external_body]
pub struct ExSqliteValue(rusqlite::types::Value);

/// A row of a query.
#[verifier::external_type_specification]
#[verifier::external_body]
pub struct ExSqliteRow<'a>(rusqlite::Row<'a>);

/// What a `rusqlite::Connection` was told to do since it was opened, in order.
pub uninterp spec fn told(conn: rusqlite::Connection) -> Seq<Statement>;

/// What a `rusqlite::types::Value` holds.
pub uninterp spec fn held_sql(value: rusqlite::types::Value) -> SqlModel;

/// What the columns of a `rusqlite::Row` hold.
pub uninterp spec fn cells(row: rusqlite::Row<'_>) -> Seq<SqlModel>;

/// What a list of `rusqlite::types::Value` holds.
pub open spec fn all_held(values: Seq<rusqlite::types::Value>) -> Seq<SqlModel> {
    Seq::new(values.len(), |i: int| held_sql(values[i]))
}

/// `rusqlite::Connection::open_in_memory`: a new database in memory, or an error. Whether it can
/// be had depends on the machine, so that is left open.
#[verifier::external_body]
fn sqlite_open() -> (r: core::result::Result<rusqlite::Connection, rusqlite::Error>)
    ensures
        r matches Ok(conn) ==> told(conn) == Seq::<Statement>::empty(),
{
    rusqlite::Connection::open_in_memory()
}

/// `rusqlite::Connection::execute_batch`: runs statements; an error is given as its text. What
/// comes of it depends on what the database holds, so it is not foretold, but kept in the record
/// of what the connection was told.
#[verifier::external_body]
fn sqlite_execute(conn: &mut rusqlite::Connection, sql: &str) -> (r: core::result::Result<
    (),
    String,
>)
    ensures
        told(*final(conn)) == told(*old(conn)).push(Statement::Batch(sql@, batch_outcome(r))),
{
    conn.execute_batch(sql).map_err(|e| e.to_string())
}

/// Makes a `rusqlite::types::Value` of a query parameter, variant by variant. A floating-point
/// number is made from its bits by `wasmtime::Val::unwrap_f64`.
#[verifier::external_body]
fn sqlite_value(value: &SqlValue) -> (r: rusqlite::types::Value)
    ensures
        held_sql(r) == value@,
{
    match value {
        SqlValue::Null => rusqlite::types::Value::Null,
        SqlValue::Integer(i) => rusqlite::types::Value::Integer(*i),
        SqlValue::Real(bits) => {
            rusqlite::types::Value::Real(wasmtime::Val::F64(*bits).unwrap_f64())
        },
        SqlValue::Text(s) => rusqlite::types::Value::Text(s.clone()),
        SqlValue::Blob(b) => rusqlite::types::Value::Blob(b.clone()),
    }
}

/// A value of a database column, text by its bytes.
enum Cell {
    Null,
    Integer(i64),
    Real(u64),
    Text(Vec<u8>),
    Blob(Vec<u8>),
}

spec fn cell_model(cell: Cell) -> SqlModel {
    match cell {
        Cell::Null => SqlModel::Null,
        Cell::Integer(i) => SqlModel::Integer(i),
        Cell::Real(bits) => SqlModel::Real(bits),
        Cell::Text(b) => SqlModel::Text(b@),
        Cell::Blob(b) => SqlModel::Blob(b@),
    }
}

/// `rusqlite::Row::get_ref`: the value of a row's column, variant by variant, or an error if there
/// is no such column.
#[verifier::external_body]
fn sqlite_column(row: &rusqlite::Row<'_>, i: usize) -> (r: core::result::Result<
    Cell,
    rusqlite::Error,
>)
    ensures
        r is Ok <==> i < cells(*row).len(),
        r matches Ok(cell) ==> cell_model(cell) == cells(*row)[i as int],
{
    row.get_ref(i).map(
        |cell| match cell {
            rusqlite::types::ValueRef::Null => Cell::Null,
            rusqlite::types::ValueRef::Integer(i) => Cell::Integer(i),
            rusqlite::types::ValueRef::Real(x) => Cell::Real(x.to_bits()),
            rusqlite::types::ValueRef::Text(s) => Cell::Text(s.to_vec()),
            rusqlite::types::ValueRef::Blob(b) => Cell::Blob(b.to_vec()),
        },
    )
}

/// The value can be read: if it is text, it is UTF-8.
pub open spec fn is_readable(value: SqlModel) -> bool {
    value matches SqlModel::Text(bytes) ==> valid_utf8(bytes)
}

/// The value of a database column, if it can be read.
fn cell_value(cell: Cell) -> (r: Option<SqlValue>)
    ensures
        match r {
            Some(value) => value@ == cell_model(cell),
            None => !is_readable(cell_model(cell)),
        },
{
    match cell {
        Cell::Null => Some(SqlValue::Null),
        Cell::Integer(i) => Some(SqlValue::Integer(i)),
        Cell::Real(bits) => Some(SqlValue::Real(bits)),
        Cell::Text(b) => match decoded(b.as_slice()) {
            Ok(s) => {
                proof {
                    decode_utf8_encode_utf8(b@);
                }
                Some(SqlValue::Text(s))
            },
            Err(_) => None,
        },
        Cell::Blob(b) => Some(SqlValue::Blob(b)),
    }
}

/// The values of a row's first columns, if they can all be read, or an error if there are fewer.
fn row_values(row: &rusqlite::Row<'_>, columns: usize) -> (r: core::result::Result<
    Option<Vec<SqlValue>>,
    rusqlite::Error,
>)
    ensures
        match r {
            Ok(Some(values)) => columns <= cells(*row).len() && sql_models(values@)
                == cells(*row).take(columns as int),
            Ok(None) => exists|i: int|
                0 <= i < columns && i < cells(*row).len() && !is_readable(#[trigger] cells(*row)[i]),
            Err(_) => columns > cells(*row).len(),
        },
{
    let mut values: Vec<SqlValue> = Vec::new();
    let mut i: usize = 0;
    while i < columns
        invariant
            i <= columns,
            i <= cells(*row).len(),
            values@.len() == i,
            forall|k: int| 0 <= k < i ==> (#[trigger] values@[k])@ == cells(*row)[k],
        decreases columns - i,
    {
        match sqlite_column(row, i) {
            Ok(cell) => match cell_value(cell) {
                Some(value) => values.push(value),
                None => {
                    assert(!is_readable(cells(*row)[i as int]));
                    return Ok(None);
                },
            },
            Err(e) => {
                return Err(e);
            },
        }
        i = i + 1;
    }
    assert(sql_models(values@) =~= cells(*row).take(columns as int));
    Ok(Some(values))
}

/// `rusqlite::Statement::readonly` and `rusqlite::Statement::column_count` of a prepared statement:
/// whether it is read-only and how many columns its rows have, unless it cannot be prepared. That
/// depends on the tables that there are, so it is not foretold, but kept in the record of what the
/// connection was told.
#[verifier::external_body]
fn sqlite_check(conn: &mut rusqlite::Connection, sql: &str) -> (r: core::result::Result<
    (bool, usize),
    rusqlite::Error,
>)
    ensures
        told(*final(conn)) == told(*old(conn)).push(
            Statement::Check(
                sql@,
                match r {
                    Ok(found) => Some(found),
                    Err(_) => None,
                },
            ),
        ),
{
    conn.prepare(sql).map(|statement| (statement.readonly(), statement.column_count()))
}

/// `rusqlite::Statement::query_map` of a prepared query with parameters: of each row, the values of
/// its columns if they can be read. The rows depend on what the database holds, so they are not
/// foretold, but kept in the record of what the connection was told.
#[verifier::external_body]
fn sqlite_query(
    conn: &mut rusqlite::Connection,
    sql: &str,
    params: &Vec<rusqlite::types::Value>,
) -> (r: core::result::Result<Vec<Option<Vec<SqlValue>>>, rusqlite::Error>)
    ensures
        told(*final(conn)) == told(*old(conn)).push(
            Statement::Query(
                sql@,
                all_held(params@),
                match r {
                    Ok(rows) => Some(rows@),
                    Err(_) => None,
                },
            ),
        ),
{
    let mut statement = conn.prepare(sql)?;
    let columns = statement.column_count();
    let params = rusqlite::params_from_iter(params);
    let rows = statement.query_map(params, |row| row_values(row, columns))?;
    rows.collect()
}

/// Query parameters as the database library holds them.
fn sqlite_values(values: &Vec<SqlValue>) -> (r: Vec<rusqlite::types::Value>)
    ensures
        all_held(r@) == sql_models(values@),
{
    let mut params: Vec<rusqlite::types::Value> = Vec::new();
    let mut k: usize = 0;
    while k < values.len()
        invariant
            k <= values@.len(),
            params@.len() == k,
            forall|i: int| 0 <= i < k ==> held_sql(#[trigger] params@[i]) == values@[i]@,
        decreases values@.len() - k,
    {
        params.push(sqlite_value(&values[k]));
        k = k + 1;
    }
    assert(all_held(params@) =~= sql_models(values@));
    params
}

/// What comes of opening a database: the database on the connection, which was told nothing but
/// what the connection was, or nothing if there is no connection.
pub open spec fn opens(
    outcome: core::result::Result<rusqlite::Connection, rusqlite::Error>,
    r: Option<SqlDatabase>,
) -> bool {
    match outcome {
        Ok(conn) => r matches Some(database) && database.statements() == told(conn),
        Err(_) => r is None,
    }
}

/// A database in memory.
pub struct SqlDatabase {
    conn: rusqlite::Connection,
}

impl SqlDatabase {
    /// What the database was told to do, in order.
    pub closed spec fn statements(self) -> Seq<Statement> {
        told(self.conn)
    }

    /// The database on a connection, or nothing if there is no connection.
    pub fn on(outcome: core::result::Result<rusqlite::Connection, rusqlite::Error>) -> (r: Option<
        SqlDatabase,
    >)
        ensures
            opens(outcome, r),
    {
        match outcome {
            Ok(conn) => Some(SqlDatabase { conn }),
            Err(_) => None,
        }
    }

    /// A new database, or nothing where none can be had.
    pub fn new() -> (r: Option<SqlDatabase>)
        ensures
            exists|outcome: core::result::Result<rusqlite::Connection, rusqlite::Error>| #[trigger]
                opens(outcome, r),
            r matches Some(database) ==> database.statements() == Seq::<Statement>::empty(),
    {
        let outcome = sqlite_open();
        let r = SqlDatabase::on(outcome);
        r
    }

    /// Runs statements; an error is given as its text.
    pub fn execute(&mut self, sql: &str) -> (r: core::result::Result<(), String>)
        ensures
            final(self).statements() == old(self).statements().push(
                Statement::Batch(sql@, batch_outcome(r)),
            ),
    {
        sqlite_execute(&mut self.conn, sql)
    }

    /// The answer to a query with the parameters that a JSON array lists: the rows in JSON, or an
    /// empty array where the query failed. Pragmas and what is not read-only or has no columns are
    /// not run.
    pub fn query(&mut self, sql: &str, params_json: &str) -> (r: String)
        ensures
            exists|check: Option<(bool, usize)>, rows: Option<Seq<Option<Vec<SqlValue>>>>|
                final(self).statements() == #[trigger] queried(
                    old(self).statements(),
                    sql@,
                    query_params(params_json@),
                    check,
                    rows,
                ) && r@ == query_text(sql@, check, rows),
    {
        let ghost before = self.statements();
        let ghost params_model = query_params(params_json@);
        if names_pragma(sql) {
            let ghost failed: Option<(bool, usize)> = None;
            let ghost none: Option<Seq<Option<Vec<SqlValue>>>> = None;
            assert(self.statements() == queried(before, sql@, params_model, failed, none));
            return query_answer(&None);
        }
        let check = match sqlite_check(&mut self.conn, sql) {
            Ok(found) => Some(found),
            Err(_) => None,
        };
        let runs = match check {
            Some((read_only, columns)) => read_only && columns > 0,
            None => false,
        };
        if !runs {
            let ghost none: Option<Seq<Option<Vec<SqlValue>>>> = None;
            assert(self.statements() == queried(before, sql@, params_model, check, none));
            return query_answer(&None);
        }
        let params = read_params(params_json);
        let values = sqlite_values(&params);
        let rows = match sqlite_query(&mut self.conn, sql, &values) {
            Ok(rows) => Some(rows),
            Err(_) => None,
        };
        assert(self.statements() == queried(
            before,
            sql@,
            params_model,
            check,
            listed_rows(rows),
        ));
        query_answer(&rows)
    }
}

/// The message of an error in setting up a database.
pub open spec fn setup_message(cause: Seq<char>) -> Seq<char> {
    "SQL setup error: "@ + cause
}

/// What is returned of an outcome of setting up a database.
pub open spec fn sets_up(outcome: core::result::Result<(), Seq<char>>, r: Result<()>) -> bool {
    match outcome {
        Ok(_) => r is Ok,
        Err(cause) => r matches Err(CraftSecError::ProgramError(m)) && m@ == setup_message(cause),
    }
}

/// The error in setting up a database.
fn setup_error(cause: &str) -> (r: Result<()>)
    ensures
        r matches Err(CraftSecError::ProgramError(m)) && m@ == setup_message(cause@),
{
    Err(CraftSecError::ProgramError(joined("SQL setup error: ", cause)))
}

/// What comes of running statements in the database with a given name, by what the databases were
/// told before and after. A database that was opened gets the name if there is none; without one
/// nothing changes.
pub open spec fn is_setup(
    before: Map<Seq<char>, Seq<Statement>>,
    name: Seq<char>,
    opened: Option<SqlDatabase>,
    sql: Seq<char>,
    after: Map<Seq<char>, Seq<Statement>>,
    r: Result<()>,
) -> bool {
    if before.dom().contains(name) {
        is_run(before, name, before[name], sql, after, r)
    } else {
        match opened {
            Some(database) => is_run(before, name, database.statements(), sql, after, r),
            None => after == before && sets_up(Err("no database"@), r),
        }
    }
}

/// What comes of running statements in the database with a given name, which was told `log`
/// before.
pub open spec fn is_run(
    before: Map<Seq<char>, Seq<Statement>>,
    name: Seq<char>,
    log: Seq<Statement>,
    sql: Seq<char>,
    after: Map<Seq<char>, Seq<Statement>>,
    r: Result<()>,
) -> bool {
    exists|outcome: core::result::Result<(), Seq<char>>|
        after == before.insert(name, log.push(Statement::Batch(sql, outcome)))
            && #[trigger] sets_up(outcome, r)
}

/// Databases by name.
pub struct Databases {
    by_name: StringMap<SqlDatabase>,
}

impl View for Databases {
    type V = Map<Seq<char>, Seq<Statement>>;

    /// What each of the databases was told to do.
    closed spec fn view(&self) -> Map<Seq<char>, Seq<Statement>> {
        self.by_name@.map_values(|database: SqlDatabase| database.statements())
    }
}

impl Databases {
    /// No databases.
    pub fn new() -> (r: Databases)
        ensures
            r@ == Map::<Seq<char>, Seq<Statement>>::empty(),
    {
        let r = Databases { by_name: StringMap::new() };
        assert(r@ =~= Map::<Seq<char>, Seq<Statement>>::empty());
        r
    }

    /// Runs statements in the database with a given name, which is made if there is none. Where
    /// none can be had, nothing changes.
    pub fn setup(&mut self, name: &str, sql: &str) -> (r: Result<()>)
        ensures
            exists|opened: Option<SqlDatabase>|
                (opened matches Some(database) ==> database.statements()
                    == Seq::<Statement>::empty()) && #[trigger] is_setup(
                    old(self)@,
                    name@,
                    opened,
                    sql@,
                    final(self)@,
                    r,
                ),
    {
        let opened = if self.by_name.contains_key(name) {
            None
        } else {
            SqlDatabase::new()
        };
        self.setup_on(name, opened, sql)
    }

    /// Runs statements in the database with a given name. If there is none, the opened one gets
    /// the name; without one nothing changes.
    pub fn setup_on(&mut self, name: &str, opened: Option<SqlDatabase>, sql: &str) -> (r: Result<()>)
        ensures
            is_setup(old(self)@, name@, opened, sql@, final(self)@, r),
    {
        let ghost before = self@;
        if !self.by_name.contains_key(name) {
            match opened {
                Some(database) => {
                    self.by_name.insert(name.to_owned(), database);
                    assert(self@ =~= before.insert(name@, database.statements()));
                },
                None => {
                    return setup_error("no database");
                },
            }
        }
        let ghost log = self@[name@];
        let ghost made = self@;
        let outcome = match self.by_name.get_mut(name) {
            Some(database) => database.execute(sql),
            None => Ok(()),
        };
        let ghost told_last = Statement::Batch(sql@, batch_outcome(outcome));
        assert(self@ =~= made.insert(name@, log.push(told_last)));
        assert(self@ =~= before.insert(name@, log.push(told_last)));
        let ghost came = batch_outcome(outcome);
        let r = match outcome {
            Ok(_) => Ok(()),
            Err(e) => setup_error(e.as_str()),
        };
        assert(sets_up(came, r));
        r
    }

    /// The answer to a query of the database with a given name: an empty array where there is
    /// none. Pragmas and what is not read-only or has no columns are not run.
    pub fn query(&mut self, name: &str, sql: &str, params_json: &str) -> (r: String)
        ensures
            if old(self)@.dom().contains(name@) {
                exists|check: Option<(bool, usize)>, rows: Option<Seq<Option<Vec<SqlValue>>>>|
                    final(self)@ == old(self)@.insert(
                        name@,
                        #[trigger] queried(
                            old(self)@[name@],
                            sql@,
                            query_params(params_json@),
                            check,
                            rows,
                        ),
                    ) && r@ == query_text(sql@, check, rows)
            } else {
                final(self)@ == old(self)@ && r@ == "[]"@
            },
    {
        let ghost before = self@;
        match self.by_name.get_mut(name) {
            Some(database) => {
                let ghost log = database.statements();
                let r = database.query(sql, params_json);
                proof {
                    let (check, rows) = choose|
                        check: Option<(bool, usize)>,
                        rows: Option<Seq<Option<Vec<SqlValue>>>>,
                    |
                        self@[name@] == #[trigger] queried(
                            log,
                            sql@,
                            query_params(params_json@),
                            check,
                            rows,
                        ) && r@ == query_text(sql@, check, rows);
                    assert(self@ =~= before.insert(
                        name@,
                        queried(
                            before[name@],
                            sql@,
                            query_params(params_json@),
                            check,
                            rows,
                        ),
                    ));
                }
                r
            },
            None => {
                assert(self@ =~= before);
                "[]".to_owned()
            },
        }
    }
}

/// The name of a log level.
pub open spec fn level_name(level: u32) -> Seq<char> {
    if level == 0 {
        "DEBUG"@
    } else if level == 1 {
        "INFO"@
    } else if level == 2 {
        "WARN"@
    } else if level == 3 {
        "ERROR"@
    } else {
        "?"@
    }
}

/// The name of a log level.
pub fn log_level(level: u32) -> (r: &'static str)
    ensures
        r@ == level_name(level),
{
    match level {
        0 => "DEBUG",
        1 => "INFO",
        2 => "WARN",
        3 => "ERROR",
        _ => "?",
    }
}

/// A pointer and a length in one integer: the pointer in the upper half.
pub open spec fn packed(ptr: u32, len: u32) -> int {
    ptr * 0x1_0000_0000 + len
}

/// Packs a pointer and a length into one integer.
pub fn pack(ptr: u32, len: u32) -> (r: u64)
    ensures
        r == packed(ptr, len),
{
    let p = ptr as u64;
    let l = len as u64;
    assert(((p << 32) | l) == p * 0x1_0000_0000 + l) by (bit_vector)
        requires
            p <= 0xffff_ffff,
            l <= 0xffff_ffff,
    ;
    (p << 32) | l
}

/// Unpacks a pointer and a length.
pub fn unpack(value: u64) -> (r: (u32, u32))
    ensures
        packed(r.0, r.1) == value,
{
    assert((value >> 32) <= 0xffff_ffff) by (bit_vector);
    assert((value & 0xffff_ffff) <= 0xffff_ffff) by (bit_vector);
    assert((value >> 32) * 0x1_0000_0000 + (value & 0xffff_ffff) == value) by (bit_vector);
    ((value >> 32) as u32, (value & 0xffff_ffff) as u32)
}

/// A pointer and a length are determined by the integer that they are packed into.
pub proof fn law_packed_injective(ptr: u32, len: u32, other_ptr: u32, other_len: u32)
    requires
        packed(ptr, len) == packed(other_ptr, other_len),
    ensures
        ptr == other_ptr,
        len == other_len,
{
}

/// The range of a program's memory from which the host reads: nothing where it exceeds the
/// memory or the program's addresses.
pub fn read_range(memory_len: usize, ptr: u32, len: u32) -> (r: Option<(usize, usize)>)
    ensures
        match r {
            Some((start, end)) => start == ptr && end == ptr + len && end <= memory_len && end
                <= u32::MAX,
            None => ptr + len > memory_len || ptr + len > u32::MAX,
        },
{
    match ptr.checked_add(len) {
        Some(end) => {
            if end as usize <= memory_len {
                Some((ptr as usize, end as usize))
            } else {
                None
            }
        },
        None => None,
    }
}

/// The range of a program's memory to which the host writes: nothing where it exceeds the memory.
pub fn write_range(memory_len: usize, ptr: u32, len: usize) -> (r: Option<(usize, usize)>)
    ensures
        match r {
            Some((start, end)) => start == ptr && end == ptr + len && end <= memory_len,
            None => ptr + len > memory_len,
        },
{
    match (ptr as usize).checked_add(len) {
        Some(end) => {
            if end <= memory_len {
                Some((ptr as usize, end))
            } else {
                None
            }
        },
        None => None,
    }
}

/// The request as a program is handed it.
pub open spec fn request_text(request: AttestationRequest) -> Seq<char> {
    "{\"args\":"@ + json::json_text(request.args@) + ",\"program_cid\":"@ + json::quoted(
        request.program_cid@,
    ) + ",\"requester\":"@ + json::quoted(request.requester@) + "}"@
}

/// The request as a program is handed it.
pub fn request_bytes(request: &AttestationRequest) -> (r: Vec<u8>)
    ensures
        r@ == encode_utf8(request_text(*request)),
{
    let mut t = "{\"args\":".to_owned();
    push_json(&mut t, &request.args);
    t.append(",\"program_cid\":");
    push_quoted(&mut t, request.program_cid.as_str());
    t.append(",\"requester\":");
    push_quoted(&mut t, request.requester.as_str());
    t.append("}");
    let mut r: Vec<u8> = Vec::new();
    append_bytes(&mut r, t.as_str().as_bytes());
    assert(r@ =~= encode_utf8(request_text(*request)));
    r
}

/// How the execution of a program can fail. Where another library tells why, its words are kept.
#[derive(Debug)]
pub enum Failure {
    /// The program does not compile.
    Compilation(String),
    /// The host's functions cannot be linked.
    Linking(String),
    /// The program cannot be instantiated.
    Instantiation(String),
    /// The program has no allocator.
    NoAllocator,
    /// The program's allocator failed.
    Allocation(String),
    /// The program has no memory.
    NoMemory,
    /// The program has no entry point.
    NoEntryPoint,
    /// The program failed.
    Execution(String),
    /// The answer is not text.
    NotText(String),
    /// The answer is not JSON.
    NotJson(String),
}

impl Failure {
    /// The message that describes the failure.
    pub open spec fn message(self) -> Seq<char> {
        match self {
            Failure::Compilation(e) => "failed to compile WASM: "@ + e@,
            Failure::Linking(e) => "linker: "@ + e@,
            Failure::Instantiation(e) => "instantiation failed: "@ + e@,
            Failure::NoAllocator => "no guest_alloc export"@,
            Failure::Allocation(e) => "guest_alloc failed: "@ + e@,
            Failure::NoMemory => "no memory export"@,
            Failure::NoEntryPoint => "no 'attest' export"@,
            Failure::Execution(e) => "WASM execution failed: "@ + e@,
            Failure::NotText(e) => "invalid UTF-8: "@ + e@,
            Failure::NotJson(e) => "invalid JSON: "@ + e@,
        }
    }

    /// The error that the failure is.
    pub fn error(&self) -> (r: CraftSecError)
        ensures
            r matches CraftSecError::ProgramError(m) && m@ == self.message(),
    {
        let message = match self {
            Failure::Compilation(e) => joined("failed to compile WASM: ", e.as_str()),
            Failure::Linking(e) => joined("linker: ", e.as_str()),
            Failure::Instantiation(e) => joined("instantiation failed: ", e.as_str()),
            Failure::NoAllocator => "no guest_alloc export".to_owned(),
            Failure::Allocation(e) => joined("guest_alloc failed: ", e.as_str()),
            Failure::NoMemory => "no memory export".to_owned(),
            Failure::NoEntryPoint => "no 'attest' export".to_owned(),
            Failure::Execution(e) => joined("WASM execution failed: ", e.as_str()),
            Failure::NotText(e) => joined("invalid UTF-8: ", e.as_str()),
            Failure::NotJson(e) => joined("invalid JSON: ", e.as_str()),
        };
        CraftSecError::ProgramError(message)
    }
}

/// The answer that a program's bytes are, or the message that tells why they are none.
pub open spec fn answer_model(bytes: Seq<u8>) -> core::result::Result<json::JsonModel, Seq<char>> {
    if valid_utf8(bytes) {
        match json::parsed(decode_utf8(bytes)) {
            Ok(answer) => Ok(answer),
            Err(e) => Err("invalid JSON: "@ + e),
        }
    } else {
        Err("invalid UTF-8: "@ + text::utf8_error(bytes))
    }
}

/// The answer that a program's bytes are.
pub fn read_answer(bytes: &[u8]) -> (r: Result<Json>)
    ensures
        match r {
            Ok(answer) => answer_model(bytes@) == Ok::<json::JsonModel, Seq<char>>(answer@),
            Err(e) => e matches CraftSecError::ProgramError(m) && answer_model(bytes@) == Err::<
                json::JsonModel,
                Seq<char>,
            >(m@),
        },
{
    match decoded(bytes) {
        Ok(s) => match Json::parse(s.as_str()) {
            Ok(answer) => Ok(answer),
            Err(e) => Err(Failure::NotJson(e).error()),
        },
        Err(e) => Err(Failure::NotText(e).error()),
    }
}

/// What an answer means.
#[derive(Debug)]
pub enum Verdict {
    /// The request is accepted, and this stands for the transaction.
    Accepted(Json),
    /// This is the result.
    Final(Result<AttestationResult>),
}

/// What an answer means: with a status of `valid` there is a transaction in it, with a status of
/// `invalid` a reason.
pub open spec fn is_verdict(answer: json::JsonModel, r: Verdict) -> bool {
    let status = answer.string_field("status"@);
    if status == Some("valid"@) {
        r matches Verdict::Accepted(transaction) && transaction@ == (
        match answer.field("transaction"@) {
            Some(value) => value,
            None => json::JsonModel::Null,
        })
    } else if status == Some("invalid"@) {
        r matches Verdict::Final(Ok(AttestationResult::Invalid(reason))) && reason@ == (
        match answer.string_field("reason"@) {
            Some(s) => s,
            None => "unknown"@,
        })
    } else {
        r matches Verdict::Final(Err(CraftSecError::ProgramError(m))) && m@
            == "invalid result status"@
    }
}

/// What an answer means.
pub fn verdict(answer: &Json) -> (r: Verdict)
    ensures
        is_verdict(answer@, r),
{
    proof {
        reveal_strlit("valid");
        reveal_strlit("invalid");
        assert("valid"@.len() != "invalid"@.len());
    }
    match answer.string_field("status") {
        Some(status) => {
            if same_text(status, "valid") {
                match answer.get("transaction") {
                    Some(value) => Verdict::Accepted(value.clone()),
                    None => Verdict::Accepted(Json::Null),
                }
            } else if same_text(status, "invalid") {
                let reason = match answer.string_field("reason") {
                    Some(s) => s.to_owned(),
                    None => "unknown".to_owned(),
                };
                Verdict::Final(Ok(AttestationResult::Invalid(reason)))
            } else {
                Verdict::Final(
                    Err(CraftSecError::ProgramError("invalid result status".to_owned())),
                )
            }
        },
        None => Verdict::Final(
            Err(CraftSecError::ProgramError("invalid result status".to_owned())),
        ),
    }
}

/// What comes of an accepted request, given the transaction or why it could not be read.
pub open spec fn is_acceptance(
    transaction: core::result::Result<Transaction, String>,
    r: Result<AttestationResult>,
) -> bool {
    match transaction {
        Ok(tx) => r == Ok::<AttestationResult, CraftSecError>(AttestationResult::Valid(tx)),
        Err(e) => r matches Err(CraftSecError::ProgramError(m)) && m@ == "invalid transaction: "@
            + e@,
    }
}

/// What comes of an accepted request, given the transaction or why it could not be read.
pub fn acceptance(transaction: core::result::Result<Transaction, String>) -> (r: Result<
    AttestationResult,
>)
    ensures
        is_acceptance(transaction, r),
{
    match transaction {
        Ok(tx) => Ok(AttestationResult::Valid(tx)),
        Err(e) => Err(CraftSecError::ProgramError(joined("invalid transaction: ", e.as_str()))),
    }
}

/// How far the execution of a program has come.
#[derive(Clone, Copy, Debug)]
pub enum Stage {
    /// The program is to be instantiated.
    Instantiating,
    /// Memory for the request is to be allocated.
    Allocating,
    /// The request is to be written to a place in memory.
    Writing(u32),
    /// The program is to be called with the request in a place in memory.
    Calling(u32),
    /// The answer is to be read.
    Reading,
    /// The transaction in the answer is to be read.
    Accepting,
    /// The execution is over.
    Done,
}

/// What the host has to do next.
#[derive(Debug)]
pub enum Action {
    /// Link and instantiate the program.
    Instantiate,
    /// Have the program allocate memory of the given length.
    Allocate(usize),
    /// Write the request to the given place.
    Write(u32),
    /// Call the entry point with the given place and length.
    Call(u32, usize),
    /// Read the bytes of the given place and length.
    Read(u32, u32),
    /// Make a transaction of the value that stands for it.
    Accept(Json),
    /// Return the result.
    Finish(Result<AttestationResult>),
}

/// What came of what the host did.
#[derive(Debug)]
pub enum Event {
    /// The program is instantiated.
    Instantiated,
    /// Memory is allocated at the given place.
    Allocated(u32),
    /// The request is written.
    Written,
    /// The entry point has returned the answer's place and length in one integer.
    Returned(u64),
    /// The bytes of the answer are read.
    Answered(Vec<u8>),
    /// The transaction is made, or this tells why it could not be.
    Accepted(core::result::Result<Transaction, String>),
    /// The execution has failed.
    Failed(Failure),
}

/// The execution of a program for a request.
pub struct Execution {
    /// The request as the program is handed it.
    pub input: Vec<u8>,
    /// How far the execution has come.
    pub stage: Stage,
}

/// The event can come at the stage.
pub open spec fn expects(stage: Stage, event: Event) -> bool {
    match event {
        Event::Failed(_) => !(stage is Done),
        Event::Instantiated => stage is Instantiating,
        Event::Allocated(_) => stage is Allocating,
        Event::Written => stage is Writing,
        Event::Returned(_) => stage is Calling,
        Event::Answered(_) => stage is Reading,
        Event::Accepted(_) => stage is Accepting,
    }
}

/// The bytes are those of an answer that accepts the request.
pub open spec fn accepts(bytes: Seq<u8>) -> bool {
    answer_model(bytes) matches Ok(answer) && answer.string_field("status"@) == Some("valid"@)
}

/// The stage after an event.
pub open spec fn next_stage(stage: Stage, event: Event) -> Stage {
    match event {
        Event::Instantiated => Stage::Allocating,
        Event::Allocated(ptr) => Stage::Writing(ptr),
        Event::Written => Stage::Calling(stage->Writing_0),
        Event::Returned(_) => Stage::Reading,
        Event::Answered(bytes) => if accepts(bytes@) {
            Stage::Accepting
        } else {
            Stage::Done
        },
        Event::Accepted(_) => Stage::Done,
        Event::Failed(_) => Stage::Done,
    }
}

/// How many events can come from a stage on.
pub open spec fn events_left(stage: Stage) -> nat {
    match stage {
        Stage::Instantiating => 6,
        Stage::Allocating => 5,
        Stage::Writing(_) => 4,
        Stage::Calling(_) => 3,
        Stage::Reading => 2,
        Stage::Accepting => 1,
        Stage::Done => 0,
    }
}

/// An execution ends: every event brings it nearer to its end.
pub proof fn law_execution_progresses(stage: Stage, event: Event)
    requires
        expects(stage, event),
    ensures
        events_left(next_stage(stage, event)) < events_left(stage),
        event is Failed ==> next_stage(stage, event) is Done,
{
}

impl Execution {
    /// Starts the execution of the program that a request names, which is known or not.
    pub fn start(request: &AttestationRequest, known: bool) -> (r: (Execution, Action))
        ensures
            r.0.input@ == encode_utf8(request_text(*request)),
            known ==> r.0.stage is Instantiating && r.1 is Instantiate,
            !known ==> r.0.stage is Done && (r.1 matches Action::Finish(Err(e))
                && e matches CraftSecError::ProgramError(m) && m@ == "unknown program CID: "@
                + request.program_cid@),
    {
        let input = request_bytes(request);
        if known {
            (Execution { input, stage: Stage::Instantiating }, Action::Instantiate)
        } else {
            let e = CraftSecError::ProgramError(
                joined("unknown program CID: ", request.program_cid.as_str()),
            );
            (Execution { input, stage: Stage::Done }, Action::Finish(Err(e)))
        }
    }

    /// What the host has to do after an event.
    pub fn step(&mut self, event: Event) -> (r: Action)
        requires
            expects(old(self).stage, event),
        ensures
            final(self).input == old(self).input,
            final(self).stage == next_stage(old(self).stage, event),
            match event {
                Event::Instantiated => r == Action::Allocate(old(self).input@.len() as usize),
                Event::Allocated(ptr) => r == Action::Write(ptr),
                Event::Written => r == Action::Call(
                    old(self).stage->Writing_0,
                    old(self).input@.len() as usize,
                ),
                Event::Returned(value) => r matches Action::Read(ptr, len) && packed(ptr, len)
                    == value,
                Event::Answered(bytes) => match answer_model(bytes@) {
                    Ok(answer) => match r {
                        Action::Accept(transaction) => is_verdict(
                            answer,
                            Verdict::Accepted(transaction),
                        ),
                        Action::Finish(result) => is_verdict(answer, Verdict::Final(result)),
                        _ => false,
                    },
                    Err(message) => r matches Action::Finish(Err(e))
                        && e matches CraftSecError::ProgramError(m) && m@ == message,
                },
                Event::Accepted(transaction) => r matches Action::Finish(result) && is_acceptance(
                    transaction,
                    result,
                ),
                Event::Failed(failure) => r matches Action::Finish(Err(e))
                    && e matches CraftSecError::ProgramError(m) && m@ == failure.message(),
            },
    {
        match event {
            Event::Instantiated => {
                self.stage = Stage::Allocating;
                Action::Allocate(self.input.len())
            },
            Event::Allocated(ptr) => {
                self.stage = Stage::Writing(ptr);
                Action::Write(ptr)
            },
            Event::Written => {
                let ptr = match self.stage {
                    Stage::Writing(ptr) => ptr,
                    _ => 0,
                };
                self.stage = Stage::Calling(ptr);
                Action::Call(ptr, self.input.len())
            },
            Event::Returned(value) => {
                self.stage = Stage::Reading;
                let (ptr, len) = unpack(value);
                Action::Read(ptr, len)
            },
            Event::Answered(bytes) => match read_answer(bytes.as_slice()) {
                Ok(answer) => match verdict(&answer) {
                    Verdict::Accepted(transaction) => {
                        self.stage = Stage::Accepting;
                        Action::Accept(transaction)
                    },
                    Verdict::Final(result) => {
                        self.stage = Stage::Done;
                        Action::Finish(result)
                    },
                },
                Err(e) => {
                    self.stage = Stage::Done;
                    Action::Finish(Err(e))
                },
            },
            Event::Accepted(transaction) => {
                self.stage = Stage::Done;
                Action::Finish(acceptance(transaction))
            },
            Event::Failed(failure) => {
                self.stage = Stage::Done;
                Action::Finish(Err(failure.error()))
            },
        }
    }
}

/// An engine that compiles programs.
#[verifier::external_type_specification]
#[verifier::external_body]
pub struct ExEngine(wasmtime::Engine);

/// A compiled program.
#[verifier::external_type_specification]
#[verifier::external_body]
pub struct ExModule(wasmtime::Module);

/// The code that a `wasmtime::Module` was compiled from.
pub uninterp spec fn module_code(module: wasmtime::Module) -> Seq<u8>;

/// `wasmtime::Engine::default`: an engine. Nothing is said of it but what the programs that it
/// compiles are.
#[verifier::external_body]
fn wasmtime_engine() -> (r: wasmtime::Engine) {
    wasmtime::Engine::default()
}

/// `wasmtime::Module::new`: the program compiled from its code, which is in the binary format or in
/// the text format, or the message of the error.
/// Whether code can be compiled takes the whole of WebAssembly to state, so that is left open.
#[verifier::external_body]
fn wasmtime_module(engine: &wasmtime::Engine, code: &[u8]) -> (r: core::result::Result<
    wasmtime::Module,
    String,
>)
    ensures
        r matches Ok(module) ==> module_code(module) == code@,
{
    wasmtime::Module::new(engine, code).map_err(|e| e.to_string())
}

/// The registry of WASM programs by their content ids, and the databases that they query.
pub struct WasmProgramRegistry {
    engine: wasmtime::Engine,
    modules: StringHashMap<wasmtime::Module>,
    databases: Databases,
}

impl WasmProgramRegistry {
    /// The code of the programs.
    pub closed spec fn code(self) -> Map<Seq<char>, Seq<u8>> {
        self.modules@.map_values(|module: wasmtime::Module| module_code(module))
    }

    /// What each of the databases was told to do.
    pub closed spec fn databases(self) -> Map<Seq<char>, Seq<Statement>> {
        self.databases@
    }

    /// No programs and no databases.
    pub fn new() -> (r: WasmProgramRegistry)
        ensures
            r.code() == Map::<Seq<char>, Seq<u8>>::empty(),
            r.databases() == Map::<Seq<char>, Seq<Statement>>::empty(),
    {
        let r = WasmProgramRegistry {
            engine: wasmtime_engine(),
            modules: StringHashMap::new(),
            databases: Databases::new(),
        };
        assert(r.code() =~= Map::<Seq<char>, Seq<u8>>::empty());
        r
    }

    /// Registers what came of compiling a program's code.
    pub fn register_compiled(
        &mut self,
        cid: String,
        compiled: core::result::Result<wasmtime::Module, String>,
    ) -> (r: Result<()>)
        ensures
            final(self).databases() == old(self).databases(),
            match compiled {
                Ok(module) => r is Ok && final(self).code() == old(self).code().insert(
                    cid@,
                    module_code(module),
                ),
                Err(e) => final(self).code() == old(self).code() && (r matches Err(
                    CraftSecError::ProgramError(m),
                ) && m@ == "failed to compile WASM: "@ + e@),
            },
    {
        match compiled {
            Ok(module) => {
                self.modules.insert(cid, module);
                assert(self.code() =~= old(self).code().insert(cid@, module_code(module)));
                Ok(())
            },
            Err(e) => Err(Failure::Compilation(e).error()),
        }
    }

    /// Compiles and registers a program.
    pub fn register_wasm(&mut self, cid: String, wasm_bytes: &[u8]) -> (r: Result<()>)
        ensures
            final(self).databases() == old(self).databases(),
            r is Ok ==> final(self).code() == old(self).code().insert(cid@, wasm_bytes@),
            r is Err ==> final(self).code() == old(self).code(),
            r matches Err(e) ==> exists|failure: Failure|
                failure is Compilation && (e matches CraftSecError::ProgramError(m) && m@
                    == #[trigger] failure.message()),
    {
        let compiled = wasmtime_module(&self.engine, wasm_bytes);
        proof {
            if compiled is Err {
                let e = compiled->Err_0;
                assert(Failure::Compilation(e).message() == "failed to compile WASM: "@ + e@);
            }
        }
        self.register_compiled(cid, compiled)
    }

    /// Runs statements in a database that programs can query, which is made if there is none.
    pub fn setup_database(&mut self, name: &str, sql: &str) -> (r: Result<()>)
        ensures
            final(self).code() == old(self).code(),
            exists|opened: Option<SqlDatabase>|
                (opened matches Some(database) ==> database.statements()
                    == Seq::<Statement>::empty()) && #[trigger] is_setup(
                    old(self).databases(),
                    name@,
                    opened,
                    sql@,
                    final(self).databases(),
                    r,
                ),
    {
        let ghost before = self.databases@;
        let r = self.databases.setup(name, sql);
        proof {
            let opened = choose|opened: Option<SqlDatabase>|
                (opened matches Some(database) ==> database.statements()
                    == Seq::<Statement>::empty()) && #[trigger] is_setup(
                    before,
                    name@,
                    opened,
                    sql@,
                    self.databases@,
                    r,
                );
            assert(is_setup(
                old(self).databases(),
                name@,
                opened,
                sql@,
                self.databases(),
                r,
            ));
        }
        r
    }

    /// Runs statements in a database that programs can query. If there is none, the opened one
    /// gets the name; without one nothing changes.
    pub fn setup_database_on(
        &mut self,
        name: &str,
        opened: Option<SqlDatabase>,
        sql: &str,
    ) -> (r: Result<()>)
        ensures
            final(self).code() == old(self).code(),
            is_setup(
                old(self).databases(),
                name@,
                opened,
                sql@,
                final(self).databases(),
                r,
            ),
    {
        self.databases.setup_on(name, opened, sql)
    }

    /// The answer to a program's query. Pragmas and what is not read-only or has no columns are
    /// not run.
    pub fn query_database(&mut self, name: &str, sql: &str, params_json: &str) -> (r: String)
        ensures
            final(self).code() == old(self).code(),
            if old(self).databases().dom().contains(name@) {
                exists|check: Option<(bool, usize)>, rows: Option<Seq<Option<Vec<SqlValue>>>>|
                    final(self).databases() == old(self).databases().insert(
                        name@,
                        #[trigger] queried(
                            old(self).databases()[name@],
                            sql@,
                            query_params(params_json@),
                            check,
                            rows,
                        ),
                    ) && r@ == query_text(sql@, check, rows)
            } else {
                final(self).databases() == old(self).databases() && r@ == "[]"@
            },
    {
        self.databases.query(name, sql, params_json)
    }

    /// The compiled program with a content id.
    pub fn module(&self, cid: &str) -> (r: Option<&wasmtime::Module>)
        ensures
            match r {
                Some(module) => self.code().dom().contains(cid@) && module_code(*module)
                    == self.code()[cid@],
                None => !self.code().dom().contains(cid@),
            },
    {
        self.modules.get(cid)
    }

    /// Starts the execution of the program that a request names.
    pub fn start(&self, request: &AttestationRequest) -> (r: (Execution, Action))
        ensures
            r.0.input@ == encode_utf8(request_text(*request)),
            self.code().dom().contains(request.program_cid@) ==> r.0.stage is Instantiating
                && r.1 is Instantiate,
            !self.code().dom().contains(request.program_cid@) ==> r.0.stage is Done && (
            r.1 matches Action::Finish(Err(e)) && e matches CraftSecError::ProgramError(m) && m@
                == "unknown program CID: "@ + request.program_cid@),
    {
        Execution::start(request, self.modules.contains_key(request.program_cid.as_str()))
    }
}

impl Default for WasmProgramRegistry {
    fn default() -> (r: WasmProgramRegistry)
        ensures
            r.code() == Map::<Seq<char>, Seq<u8>>::empty(),
            r.databases() == Map::<Seq<char>, Seq<Statement>>::empty(),
    {
        WasmProgramRegistry::new()
    }
}

/// A program is not told a request's id: requests that differ in nothing else are handed to it
/// alike.
pub proof fn law_request_id_unseen(a: AttestationRequest, b: AttestationRequest)
    requires
        a.program_cid@ == b.program_cid@,
        a.requester@ == b.requester@,
        a.args@ == b.args@,
    ensures
        request_text(a) == request_text(b),
{
}

/// The fields of a request as a program is handed it, in the order of their names.
pub open spec fn request_fields(request: AttestationRequest) -> Seq<(Seq<char>, json::JsonModel)> {
    seq![
        ("args"@, request.args@),
        ("program_cid"@, json::JsonModel::Text(request.program_cid@)),
        ("requester"@, json::JsonModel::Text(request.requester@)),
    ]
}

/// What a program is handed is the JSON object of the request's fields.
pub proof fn law_request_is_json_object(request: AttestationRequest)
    ensures
        request_text(request) == json::json_text(
            json::JsonModel::Object(request_fields(request)),
        ),
{
    reveal_strlit("{");
    reveal_strlit(",");
    reveal_strlit(":");
    reveal_strlit("args");
    reveal_strlit("{\"args\":");
    json::lemma_plain_quoted("args"@);
    assert("{\"args\":"@ =~= "{"@ + json::quoted("args"@) + ":"@);
    reveal_strlit("program_cid");
    reveal_strlit(",\"program_cid\":");
    json::lemma_plain_quoted("program_cid"@);
    assert(",\"program_cid\":"@ =~= ","@ + json::quoted("program_cid"@) + ":"@);
    reveal_strlit("requester");
    reveal_strlit(",\"requester\":");
    json::lemma_plain_quoted("requester"@);
    assert(",\"requester\":"@ =~= ","@ + json::quoted("requester"@) + ":"@);
    let fields = request_fields(request);
    json::lemma_opened_first(fields, "{\"args\":"@);
    json::lemma_opened_next(fields, 1, ",\"program_cid\":"@);
    json::lemma_opened_next(fields, 2, ",\"requester\":"@);
    json::lemma_object_closed(fields);
}

/// What a program is handed is the JSON object of the arguments, the program's content id and the
/// requester, and of nothing else.
pub proof fn law_request_as_handed(request: AttestationRequest)
    ensures
        request_text(request) == json::json_text(
            json::JsonModel::Object(
                seq![
                    ("args"@, request.args@),
                    ("program_cid"@, json::JsonModel::Text(request.program_cid@)),
                    ("requester"@, json::JsonModel::Text(request.requester@)),
                ],
            ),
        ),
{
    law_request_is_json_object(request);
}

/// A pointer and a length are the upper and the lower half of the integer that they are packed
/// into.
pub proof fn law_packed_halves(ptr: u32, len: u32)
    ensures
        packed(ptr, len) / 0x1_0000_0000 == ptr,
        packed(ptr, len) % 0x1_0000_0000 == len,
{
}

/// Query parameters come back as they went in: a column that holds what a text, an integer or
/// nothing was bound to shows the same JSON value, and a floating-point number keeps its bits.
pub proof fn law_parameters_come_back(s: Seq<char>, n: u64, i: i64, f: Float, b: bool)
    ensures
        column_model(bound(json::JsonModel::Text(s))) == json::JsonModel::Text(s),
        n <= i64::MAX ==> column_model(bound(json::JsonModel::Number(JsonNumber::PosInt(n))))
            == json::JsonModel::Number(JsonNumber::PosInt(n)),
        i < 0 ==> column_model(bound(json::JsonModel::Number(JsonNumber::NegInt(i))))
            == json::JsonModel::Number(JsonNumber::NegInt(i)),
        column_model(bound(json::JsonModel::Null)) == json::JsonModel::Null,
        bound(json::JsonModel::Number(JsonNumber::Float(f))) == SqlModel::Real(f.bits()),
        bound(json::JsonModel::Bool(b)) == SqlModel::Integer(
            if b {
                1
            } else {
                0
            },
        ),
{
    encode_utf8_decode_utf8(s);
}

/// Values without a counterpart in the database: an array or an object is bound as its JSON text,
/// and an integer that 64 signed bits do not hold as the floating-point number nearest to it.
pub proof fn law_other_parameters(
    items: Seq<json::JsonModel>,
    entries: Seq<(Seq<char>, json::JsonModel)>,
    n: u64,
)
    ensures
        bound(json::JsonModel::List(items)) == SqlModel::Text(
            encode_utf8(json::json_text(json::JsonModel::List(items))),
        ),
        bound(json::JsonModel::Object(entries)) == SqlModel::Text(
            encode_utf8(json::json_text(json::JsonModel::Object(entries))),
        ),
        n > i64::MAX ==> bound(json::JsonModel::Number(JsonNumber::PosInt(n))) == SqlModel::Real(
            float::nearest(n as int),
        ),
{
}

/// How columns are shown: bytes in hexadecimal, floating-point numbers as they are if they are
/// finite and as nothing otherwise.
pub proof fn law_columns_shown(bytes: Seq<u8>, bits: u64)
    ensures
        column_model(SqlModel::Blob(bytes)) == json::JsonModel::Text(hashing::hex_text(bytes)),
        float::is_finite(bits) ==> column_model(SqlModel::Real(bits)) == json::JsonModel::Number(
            JsonNumber::Float(Float::with_bits(bits)),
        ),
        !float::is_finite(bits) ==> column_model(SqlModel::Real(bits)) == json::JsonModel::Null,
{
}

/// All parameters are bound, each in its place, and a text that is no JSON array has none.
pub proof fn law_all_parameters_bound(text: Seq<char>, values: Seq<json::JsonModel>, i: int)
    ensures
        json::parsed(text) == Ok::<json::JsonModel, Seq<char>>(json::JsonModel::List(values)) ==> {
            &&& query_params(text).len() == values.len()
            &&& 0 <= i < values.len() ==> query_params(text)[i] == bound(values[i])
        },
        !(json::parsed(text) matches Ok(json::JsonModel::List(_))) ==> query_params(text).len()
            == 0,
{
}

/// All rows and all columns are shown, each in its place; if a row cannot be read or the query has
/// failed, the answer is an empty array.
pub proof fn law_all_rows_shown(rows: Seq<Option<Vec<SqlValue>>>, table: Seq<json::JsonModel>)
    requires
        table.len() == rows.len(),
        forall|i: int|
            0 <= i < rows.len() && rows[i] is Some ==> {
                &&& #[trigger] table[i] is List
                &&& table[i]->List_0.len() == rows[i]->Some_0@.len()
                &&& forall|j: int|
                    0 <= j < rows[i]->Some_0@.len() ==> #[trigger] table[i]->List_0[j]
                        == column_model(rows[i]->Some_0@[j]@)
            },
    ensures
        (forall|i: int| 0 <= i < rows.len() ==> #[trigger] rows[i] is Some) ==> answer_text(
            Some(rows),
        ) == json::json_text(json::JsonModel::List(table)),
        (exists|i: int| 0 <= i < rows.len() && #[trigger] rows[i] is None) ==> answer_text(
            Some(rows),
        ) == "[]"@,
        answer_text(None) == "[]"@,
{
    if all_read(rows) {
        let shown = table_model(rows)->List_0;
        assert forall|i: int| 0 <= i < rows.len() implies shown[i] == table[i] by {
            assert(rows[i] is Some);
            let row = rows[i]->Some_0@;
            assert(table[i]->List_0 =~= row_model(sql_models(row))->List_0);
        }
        assert(shown =~= table);
    }
}

/// Queries are run: a statement that is read-only, has columns and is no pragma is run, and its
/// rows are the answer; any other is not, and the answer is an empty array.
pub proof fn law_queries_run(
    log: Seq<Statement>,
    sql: Seq<char>,
    params: Seq<SqlModel>,
    read_only: bool,
    columns: usize,
    rows: Option<Seq<Option<Vec<SqlValue>>>>,
)
    ensures
        read_only && columns > 0 && !sql::is_pragma(sql) ==> queried(
            log,
            sql,
            params,
            Some((read_only, columns)),
            rows,
        ).last() == Statement::Query(sql, params, rows) && query_text(
            sql,
            Some((read_only, columns)),
            rows,
        ) == answer_text(rows),
        !(read_only && columns > 0 && !sql::is_pragma(sql)) ==> query_text(
            sql,
            Some((read_only, columns)),
            rows,
        ) == "[]"@ && forall|i: int|
            log.len() <= i < queried(log, sql, params, Some((read_only, columns)), rows).len()
                ==> !(#[trigger] queried(
                log,
                sql,
                params,
                Some((read_only, columns)),
                rows,
            )[i] is Query),
        query_text(sql, None, rows) == "[]"@,
{
}

/// Setting up a database leaves the others alone. Where it succeeds, the statements were run in the
/// database with the name, after all that it was told before.
pub proof fn law_setup_in_named_database(
    before: Map<Seq<char>, Seq<Statement>>,
    name: Seq<char>,
    opened: Option<SqlDatabase>,
    sql: Seq<char>,
    after: Map<Seq<char>, Seq<Statement>>,
    r: Result<()>,
    other: Seq<char>,
)
    requires
        is_setup(before, name, opened, sql, after, r),
    ensures
        other != name ==> after.dom().contains(other) == before.dom().contains(other) && (
        before.dom().contains(other) ==> after[other] == before[other]),
        r is Ok ==> after.dom().contains(name) && after[name].len() > 0,
        before.dom().contains(name) ==> after.dom().contains(name) && after[name].drop_last()
            == before[name],
        !before.dom().contains(name) ==> (opened matches Some(database) ==> after.dom().contains(
            name,
        ) && after[name].drop_last() == database.statements()),
        before.dom().contains(name) || opened is Some ==> (after[name].last()
            matches Statement::Batch(run, outcome) && run == sql && (r is Ok <==> outcome is Ok)),
        !before.dom().contains(name) && opened is None ==> r is Err && after == before,
{
    let log = if before.dom().contains(name) {
        before[name]
    } else {
        opened->Some_0.statements()
    };
    if before.dom().contains(name) || opened is Some {
        let outcome = choose|outcome: core::result::Result<(), Seq<char>>|
            after == before.insert(name, log.push(Statement::Batch(sql, outcome)))
                && #[trigger] sets_up(outcome, r);
        assert(sets_up(outcome, r));
        assert(after[name] == log.push(Statement::Batch(sql, outcome)));
        assert(after[name].drop_last() =~= log);
    }
}

/// What an answer means follows from its status alone: `valid` accepts with the transaction in the
/// answer, `invalid` rejects with the reason in it, and any other fails.
pub proof fn law_status_decides(answer: json::JsonModel, r: Verdict)
    requires
        is_verdict(answer, r),
    ensures
        r is Accepted <==> answer.string_field("status"@) == Some("valid"@),
        r matches Verdict::Accepted(transaction) ==> transaction@ == (
        match answer.field("transaction"@) {
            Some(value) => value,
            None => json::JsonModel::Null,
        }),
        r matches Verdict::Final(Ok(result)) ==> answer.string_field("status"@) == Some("invalid"@)
            && (result matches AttestationResult::Invalid(reason) && reason@ == (
        match answer.string_field("reason"@) {
            Some(s) => s,
            None => "unknown"@,
        })),
        r matches Verdict::Final(Err(_)) ==> answer.string_field("status"@) != Some("valid"@)
            && answer.string_field("status"@) != Some("invalid"@),
{
    reveal_strlit("valid");
    reveal_strlit("invalid");
    assert("valid"@.len() != "invalid"@.len());
}

/// The transaction of an accepted request is the result, and one that could not be read is an
/// error.
pub proof fn law_accepted_transaction_is_result(
    transaction: core::result::Result<Transaction, String>,
    r: Result<AttestationResult>,
)
    requires
        is_acceptance(transaction, r),
    ensures
        transaction matches Ok(tx) ==> r == Ok::<AttestationResult, CraftSecError>(
            AttestationResult::Valid(tx),
        ),
        transaction is Err ==> r matches Err(CraftSecError::ProgramError(_)),
{
}

/// The order of an execution: the program is instantiated, memory is allocated, the request is
/// written to the place that was allocated, the program is called once with that place, and its
/// answer is read. An answer that accepts is followed by making the transaction, and anything else
/// ends the execution.
pub proof fn law_execution_order(stage: Stage, ptr: u32, value: u64, bytes: Vec<u8>)
    ensures
        next_stage(Stage::Instantiating, Event::Instantiated) == Stage::Allocating,
        next_stage(Stage::Allocating, Event::Allocated(ptr)) == Stage::Writing(ptr),
        next_stage(Stage::Writing(ptr), Event::Written) == Stage::Calling(ptr),
        next_stage(Stage::Calling(ptr), Event::Returned(value)) == Stage::Reading,
        expects(stage, Event::Written) ==> stage is Writing,
        expects(stage, Event::Returned(value)) ==> stage is Calling,
        expects(stage, Event::Answered(bytes)) ==> stage is Reading,
        (next_stage(Stage::Reading, Event::Answered(bytes)) is Accepting) <==> (answer_model(bytes@)
            matches Ok(answer) && answer.string_field("status"@) == Some("valid"@)),
        !(next_stage(Stage::Reading, Event::Answered(bytes)) is Accepting) ==> next_stage(
            Stage::Reading,
            Event::Answered(bytes),
        ) is Done,
{
}

/// The answer of a program is what its bytes are as JSON text, and bytes that are not UTF-8 or not
/// JSON are none.
pub proof fn law_answer_of_bytes(bytes: Seq<u8>, s: Seq<char>)
    requires
        bytes == encode_utf8(s),
    ensures
        json::parsed(s) matches Ok(answer) ==> answer_model(bytes) == Ok::<
            json::JsonModel,
            Seq<char>,
        >(answer),
        json::parsed(s) is Err ==> answer_model(bytes) is Err,
        forall|other: Seq<u8>| !valid_utf8(other) ==> #[trigger] answer_model(other) is Err,
{
    encode_utf8_valid_utf8(s);
    encode_utf8_decode_utf8(s);
}

/// Messages tell how an execution failed in full, and log levels have the names of their numbers.
pub proof fn law_failure_messages(e: String, level: u32)
    ensures
        Failure::Compilation(e).message() == "failed to compile WASM: "@ + e@,
        Failure::Linking(e).message() == "linker: "@ + e@,
        Failure::Instantiation(e).message() == "instantiation failed: "@ + e@,
        Failure::NoAllocator.message() == "no guest_alloc export"@,
        Failure::Allocation(e).message() == "guest_alloc failed: "@ + e@,
        Failure::NoMemory.message() == "no memory export"@,
        Failure::NoEntryPoint.message() == "no 'attest' export"@,
        Failure::Execution(e).message() == "WASM execution failed: "@ + e@,
        Failure::NotText(e).message() == "invalid UTF-8: "@ + e@,
        Failure::NotJson(e).message() == "invalid JSON: "@ + e@,
        level_name(0) == "DEBUG"@,
        level_name(1) == "INFO"@,
        level_name(2) == "WARN"@,
        level_name(3) == "ERROR"@,
        level > 3 ==> level_name(level) == "?"@,
{
}

/// What a list of values is: what each of them is, in its place. Text is taken by its bytes, and it
/// can be read just if they are UTF-8; everything else can.
pub proof fn law_values_of_list(values: Seq<SqlValue>, i: int, value: SqlModel)
    ensures
        sql_models(values).len() == values.len(),
        0 <= i < values.len() ==> sql_models(values)[i] == values[i]@,
        value matches SqlModel::Text(bytes) ==> (is_readable(value) <==> valid_utf8(bytes)),
        !(value is Text) ==> is_readable(value),
{
}

/// What is returned of setting up a database: nothing if it went well, and otherwise an error that
/// tells the cause in full.
pub proof fn law_setup_result(outcome: core::result::Result<(), Seq<char>>, r: Result<()>)
    requires
        sets_up(outcome, r),
    ensures
        r is Ok <==> outcome is Ok,
        outcome matches Err(cause) ==> (r matches Err(CraftSecError::ProgramError(m)) && m@
            == "SQL setup error: "@ + cause),
{
}

/// An opened connection gives a database that was told what the connection was told, and without a
/// connection there is no database.
pub proof fn law_opened_database(
    outcome: core::result::Result<rusqlite::Connection, rusqlite::Error>,
    r: Option<SqlDatabase>,
)
    requires
        opens(outcome, r),
    ensures
        r is Some <==> outcome is Ok,
        outcome matches Ok(conn) ==> r->Some_0.statements() == told(conn),
{
}

/// The rows of a query are those that it has found, all of them, unless it failed.
pub proof fn law_rows_found(rows: Option<Vec<Option<Vec<SqlValue>>>>)
    ensures
        rows matches Some(table) ==> listed_rows(rows) == Some(table@),
        rows is None ==> listed_rows(rows) is None,
{
}

} // verus!

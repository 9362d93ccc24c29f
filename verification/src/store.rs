//! Named snapshots of a board in an SQLite file: a table of records, one row
//! per name, and a table of cells, one row per live cell of a record.

use vstd::prelude::*;
use crate::board::LiveSet;

verus! {

/// `rusqlite::Connection`, an open database.
#[verifier::external_type_specification]
#[verifier::external_body]
pub struct ExConnection(rusqlite::Connection);

/// `rusqlite::Transaction`, which rolls back when dropped uncommitted.
#[verifier::external_type_specification]
#[verifier::external_body]
pub struct ExTransaction<'conn>(rusqlite::Transaction<'conn>);

/// `rusqlite::Error`.
#[verifier::external_type_specification]
#[verifier::external_body]
pub struct ExSqlError(rusqlite::Error);

/// SQLite's extended result code for a broken `UNIQUE` constraint.
pub const SQLITE_CONSTRAINT_UNIQUE: i32 = 2067;

/// Why a store operation failed.
#[derive(Debug, Clone, Copy, PartialEq, Eq, Structural)]
pub enum StoreError {
    /// No snapshot has the name.
    NotFound,
    /// A snapshot with the name exists already.
    UniqueViolation,
    /// The database could not be opened, read or written.
    StorageIO,
}

/// `Connection::open`: opens the database file at `path`, creating it where
/// it is missing. Nothing is claimed of the outcome.
#[verifier::external_body]
fn open(path: &str) -> (r: Result<rusqlite::Connection, rusqlite::Error>) {
    rusqlite::Connection::open(path)
}

/// `Connection::execute` with integer parameters: runs one statement with
/// `args` bound to its placeholders, in order. Nothing is claimed of the
/// outcome.
#[verifier::external_body]
fn execute(conn: &rusqlite::Connection, sql: &str, args: &Vec<i64>) -> (r: Result<
    usize,
    rusqlite::Error,
>) {
    conn.execute(sql, rusqlite::params_from_iter(args.iter()))
}

/// `Connection::execute` with one text parameter: runs one statement with
/// `text` bound to its placeholder. Nothing is claimed of the outcome.
#[verifier::external_body]
fn execute_text(conn: &rusqlite::Connection, sql: &str, text: &str) -> (r: Result<
    usize,
    rusqlite::Error,
>) {
    conn.execute(sql, [text])
}

/// `Connection::transaction`: begins a transaction. Nothing is claimed of the
/// outcome.
#[verifier::external_body]
fn begin<'a>(conn: &'a mut rusqlite::Connection) -> (r: Result<
    rusqlite::Transaction<'a>,
    rusqlite::Error,
>) {
    conn.transaction()
}

/// `Deref` of `Transaction`: the connection that the transaction runs on.
#[verifier::external_body]
fn connection_of<'a, 'c>(tx: &'a rusqlite::Transaction<'c>) -> (r: &'a rusqlite::Connection) {
    &**tx
}

/// `Connection::last_insert_rowid`: the row id of the latest successful
/// insert on the connection. Nothing is claimed of its value.
#[verifier::external_body]
fn last_rowid(conn: &rusqlite::Connection) -> (r: i64) {
    conn.last_insert_rowid()
}

/// `Transaction::commit`: commits and ends the transaction. Nothing is
/// claimed of the outcome.
#[verifier::external_body]
fn commit(tx: rusqlite::Transaction<'_>) -> (r: Result<(), rusqlite::Error>) {
    tx.commit()
}

/// `Connection::prepare` and `Statement::query_map`: the rows of a query with
/// an integer and a text column, in the order in which SQLite gives them.
/// Nothing is claimed of the outcome.
#[verifier::external_body]
fn select_records(conn: &rusqlite::Connection, sql: &str) -> (r: Result<
    Vec<(i64, String)>,
    rusqlite::Error,
>) {
    let mut sel = conn.prepare(sql)?;
    let rows = sel.query_map([], |row| Ok((row.get(0)?, row.get(1)?)))?;
    rows.collect()
}

/// `Connection::prepare` and `Statement::query_map`: the rows of a query with
/// two integer columns and one integer parameter. A value beyond `i32` is an
/// error of `Row::get`. Nothing is claimed of the outcome.
#[verifier::external_body]
fn select_cells(conn: &rusqlite::Connection, sql: &str, id: i64) -> (r: Result<
    Vec<(i32, i32)>,
    rusqlite::Error,
>) {
    let mut sel = conn.prepare(sql)?;
    let rows = sel.query_map([id], |row| Ok((row.get(0)?, row.get(1)?)))?;
    rows.collect()
}

/// `Error::sqlite_extended_error_code`: SQLite's extended result code where
/// the error came from SQLite itself, else `None`.
#[verifier::external_body]
fn extended_code(e: &rusqlite::Error) -> (r: Option<i32>) {
    e.sqlite_extended_error_code()
}

/// The id of the first record named `name`, if there is one.
pub open spec fn first_named(records: Seq<(i64, String)>, name: Seq<char>) -> Option<i64>
    decreases records.len(),
{
    if records.len() == 0 {
        None
    } else if records[0].1@ == name {
        Some(records[0].0)
    } else {
        first_named(records.drop_first(), name)
    }
}

/// No record has the name exactly where `first_named` finds none.
proof fn lemma_first_named(records: Seq<(i64, String)>, name: Seq<char>)
    ensures
        first_named(records, name) is None <==> forall|i: int|
            0 <= i < records.len() ==> (#[trigger] records[i]).1@ != name,
    decreases records.len(),
{
    if records.len() > 0 {
        let rest = records.drop_first();
        lemma_first_named(rest, name);
        if records[0].1@ != name {
            if first_named(rest, name) is None {
                assert forall|i: int| 0 <= i < records.len() implies (
                #[trigger] records[i]).1@ != name by {
                    if i > 0 {
                        assert(rest[i - 1] == records[i]);
                    }
                }
            } else {
                let i = choose|i: int| 0 <= i < rest.len() && (#[trigger] rest[i]).1@ == name;
                assert(records[i + 1] == rest[i]);
            }
        }
    }
}

/// What resolving `name` among `records` gives: the id of the first record
/// of that name, or `NotFound`.
pub open spec fn resolved(records: Seq<(i64, String)>, name: Seq<char>) -> Result<i64, StoreError> {
    match first_named(records, name) {
        Some(id) => Ok(id),
        None => Err(StoreError::NotFound),
    }
}

/// Resolves a snapshot's name to its record id by going through `records`
/// from the front. `NotFound` where no record has exactly that name.
pub fn find_record(records: &Vec<(i64, String)>, name: &str) -> (r: Result<i64, StoreError>)
    ensures
        r == resolved(records@, name@),
        r is Err <==> forall|i: int|
            0 <= i < records.len() ==> (#[trigger] records@[i]).1@ != name@,
{
    proof {
        lemma_first_named(records@, name@);
    }
    let wanted = name.to_owned();
    let mut i: usize = 0;
    assert(records@.skip(0) == records@);
    while i < records.len()
        invariant
            i <= records.len(),
            wanted@ == name@,
            first_named(records@, name@) == first_named(records@.skip(i as int), name@),
        decreases records.len() - i,
    {
        proof {
            let rest = records@.skip(i as int);
            assert(rest[0] == records@[i as int]);
            assert(rest.drop_first() == records@.skip(i + 1));
        }
        if records[i].1 == wanted {
            return Ok(records[i].0);
        }
        i += 1;
    }
    Err(StoreError::NotFound)
}

/// The rows of the cell table that stand for `cells` under the record `id`:
/// one row `[id, x, y]` for each live cell, in the order of the listing.
pub fn cell_rows(id: i64, cells: &LiveSet) -> (r: Vec<Vec<i64>>)
    requires
        cells.wf(),
    ensures
        r@.len() == cells.listing().len(),
        forall|i: int|
            0 <= i < r@.len() ==> (#[trigger] r@[i])@ == seq![
                id,
                cells.listing()[i].0 as i64,
                cells.listing()[i].1 as i64,
            ],
{
    let list = cells.live_cells();
    let mut rows: Vec<Vec<i64>> = Vec::new();
    let mut i: usize = 0;
    while i < list.len()
        invariant
            i <= list.len(),
            list@ == cells.listing(),
            rows@.len() == i,
            forall|k: int|
                0 <= k < i ==> (#[trigger] rows@[k])@ == seq![
                    id,
                    list@[k].0 as i64,
                    list@[k].1 as i64,
                ],
        decreases list.len() - i,
    {
        let mut row: Vec<i64> = Vec::new();
        row.push(id);
        row.push(list[i].0 as i64);
        row.push(list[i].1 as i64);
        assert(row@ =~= seq![id, list@[i as int].0 as i64, list@[i as int].1 as i64]);
        rows.push(row);
        i += 1;
    }
    rows
}

impl StoreError {
    /// The error that an outside failure with SQLite's extended result code
    /// `code` stands for while a record is inserted.
    pub open spec fn of_code(code: Option<i32>) -> StoreError {
        if code == Some(SQLITE_CONSTRAINT_UNIQUE) {
            StoreError::UniqueViolation
        } else {
            StoreError::StorageIO
        }
    }

    /// Tells a name that is taken from every other failure to insert a record.
    pub fn from_code(code: Option<i32>) -> (r: StoreError)
        ensures
            r == StoreError::of_code(code),
    {
        match code {
            Some(c) => {
                if c == SQLITE_CONSTRAINT_UNIQUE {
                    StoreError::UniqueViolation
                } else {
                    StoreError::StorageIO
                }
            },
            None => StoreError::StorageIO,
        }
    }
}

/// The snapshot store: one connection, opened once and kept.
pub struct Storage {
    conn: rusqlite::Connection,
}

impl Storage {
    /// Opens the database file `fname` and creates the two tables where they
    /// are missing. Every failure is a `StorageIO`.
    pub fn new(fname: &str) -> (r: Result<Storage, StoreError>)
        ensures
            r is Err ==> r == Err::<Storage, StoreError>(StoreError::StorageIO),
    {
        let conn = match open(fname) {
            Ok(c) => c,
            Err(_) => {
                return Err(StoreError::StorageIO);
            },
        };
        let none: Vec<i64> = Vec::new();
        let records = execute(
            &conn,
            "create table if not exists records (
            id integer primary key,
            name text not null unique
        )",
            &none,
        );
        if records.is_err() {
            return Err(StoreError::StorageIO);
        }
        let cells = execute(
            &conn,
            "create table if not exists cells (
            id integer primary key,
            record_id integer not null references records(id),
            x integer not null,
            y integer not null
        )",
            &none,
        );
        if cells.is_err() {
            return Err(StoreError::StorageIO);
        }
        Ok(Storage { conn })
    }

    /// All records as `(id, name)`, in the store's row order.
    pub fn get_records(&self) -> (r: Result<Vec<(i64, String)>, StoreError>)
        ensures
            r is Err ==> r == Err::<Vec<(i64, String)>, StoreError>(StoreError::StorageIO),
    {
        match select_records(&self.conn, "SELECT id, name from records;") {
            Ok(v) => Ok(v),
            Err(_) => Err(StoreError::StorageIO),
        }
    }

    /// Saves `cells` under `name` in one transaction: the record row, then
    /// the rows of `cell_rows` one by one, then the commit. The first failure
    /// ends it, and the transaction, dropped uncommitted, is rolled back.
    /// What comes back is the store's to decide: the id that it gave the
    /// record; `UniqueViolation` or `StorageIO` where the record was refused,
    /// as `StoreError::from_code` tells them apart; `StorageIO` for every
    /// other failure.
    pub fn save(&mut self, name: &str, cells: &LiveSet) -> (r: Result<i64, StoreError>)
        requires
            cells.wf(),
        ensures
            r matches Err(e) ==> e == StoreError::UniqueViolation || e == StoreError::StorageIO,
    {
        let tx = match begin(&mut self.conn) {
            Ok(t) => t,
            Err(_) => {
                return Err(StoreError::StorageIO);
            },
        };
        match execute_text(connection_of(&tx), "insert into records (name) values (?1)", name) {
            Ok(_) => {},
            Err(e) => {
                return Err(StoreError::from_code(extended_code(&e)));
            },
        }
        let last_id = last_rowid(connection_of(&tx));
        let rows = cell_rows(last_id, cells);
        let mut i: usize = 0;
        while i < rows.len()
            invariant
                i <= rows.len(),
            decreases rows.len() - i,
        {
            let done = execute(
                connection_of(&tx),
                "insert into cells (record_id, x, y) values (?1, ?2, ?3)",
                &rows[i],
            );
            if done.is_err() {
                return Err(StoreError::StorageIO);
            }
            i += 1;
        }
        match commit(tx) {
            Ok(_) => Ok(last_id),
            Err(_) => Err(StoreError::StorageIO),
        }
    }

    /// The cells saved under `name`, in the store's row order. `NotFound`
    /// where no record has the name.
    pub fn load(&self, name: &str) -> (r: Result<Vec<(i32, i32)>, StoreError>)
        ensures
            r matches Err(e) ==> e == StoreError::NotFound || e == StoreError::StorageIO,
    {
        let recs = match self.get_records() {
            Ok(v) => v,
            Err(e) => {
                return Err(e);
            },
        };
        self.load_listed(&recs, name)
    }

    /// The cells of the snapshot `name`, where `records` lists the store's
    /// records. It is `NotFound` exactly where the list has no record of that
    /// name; else the cells are read for the id of the first such record.
    pub fn load_listed(&self, records: &Vec<(i64, String)>, name: &str) -> (r: Result<
        Vec<(i32, i32)>,
        StoreError,
    >)
        ensures
            resolved(records@, name@) is Err <==> r == Err::<Vec<(i32, i32)>, StoreError>(
                StoreError::NotFound,
            ),
            r matches Err(e) ==> e == StoreError::NotFound || e == StoreError::StorageIO,
    {
        let rid = match find_record(records, name) {
            Ok(id) => id,
            Err(e) => {
                return Err(e);
            },
        };
        match select_cells(&self.conn, "SELECT x, y from cells WHERE record_id=?1;", rid) {
            Ok(v) => Ok(v),
            Err(_) => Err(StoreError::StorageIO),
        }
    }

    /// Deletes the snapshot `name` in one transaction: its cell rows, then
    /// its record row. `NotFound` where no record has the name.
    pub fn delete(&mut self, name: &str) -> (r: Result<(), StoreError>)
        ensures
            r matches Err(e) ==> e == StoreError::NotFound || e == StoreError::StorageIO,
    {
        let recs = match self.get_records() {
            Ok(v) => v,
            Err(e) => {
                return Err(e);
            },
        };
        self.delete_listed(&recs, name)
    }

    /// Deletes the snapshot `name`, where `records` lists the store's
    /// records. It is `NotFound` exactly where the list has no record of that
    /// name; else the rows of the first such record are deleted in one
    /// transaction, its cell rows first.
    pub fn delete_listed(&mut self, records: &Vec<(i64, String)>, name: &str) -> (r: Result<
        (),
        StoreError,
    >)
        ensures
            resolved(records@, name@) is Err <==> r == Err::<(), StoreError>(StoreError::NotFound),
            r matches Err(e) ==> e == StoreError::NotFound || e == StoreError::StorageIO,
    {
        let rid = match find_record(records, name) {
            Ok(id) => id,
            Err(e) => {
                return Err(e);
            },
        };
        let tx = match begin(&mut self.conn) {
            Ok(t) => t,
            Err(_) => {
                return Err(StoreError::StorageIO);
            },
        };
        let mut id: Vec<i64> = Vec::new();
        id.push(rid);
        if execute(connection_of(&tx), "delete from cells where record_id=(?1)", &id).is_err() {
            return Err(StoreError::StorageIO);
        }
        if execute(connection_of(&tx), "delete from records where id=(?1)", &id).is_err() {
            return Err(StoreError::StorageIO);
        }
        match commit(tx) {
            Ok(_) => Ok(()),
            Err(_) => Err(StoreError::StorageIO),
        }
    }
}

} // verus!

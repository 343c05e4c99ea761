use vstd::prelude::*;

use crate::post::{BlogPost, PostView};
use crate::store::StoreError;

verus! {

// ---------------------------------------------------------------------
// The durable store: a relational table drives it, so the queries
// themselves run in the unverified shell.  This module fixes what the
// shell executes (the schema migration and the three statements), how
// fetched rows become records, and how each driver outcome maps to a
// store result — the parts that carry the design's decisions.
// ---------------------------------------------------------------------

/// The one schema migration, safe to re-run on every startup.
pub fn migration_sql() -> (r: &'static str)
    ensures
        r@ == "CREATE TABLE IF NOT EXISTS blog_posts (id INTEGER PRIMARY KEY AUTOINCREMENT, date TEXT NOT NULL, title TEXT NOT NULL, body TEXT NOT NULL, author TEXT NOT NULL)"@,
{
    "CREATE TABLE IF NOT EXISTS blog_posts (id INTEGER PRIMARY KEY AUTOINCREMENT, date TEXT NOT NULL, title TEXT NOT NULL, body TEXT NOT NULL, author TEXT NOT NULL)"
}

/// Every record, every column.
pub fn select_all_sql() -> (r: &'static str)
    ensures
        r@ == "SELECT id, date, title, body, author FROM blog_posts"@,
{
    "SELECT id, date, title, body, author FROM blog_posts"
}

/// One record by id; the id binds to the placeholder.
pub fn select_one_sql() -> (r: &'static str)
    ensures
        r@ == "SELECT id, date, title, body, author FROM blog_posts WHERE id = ?"@,
{
    "SELECT id, date, title, body, author FROM blog_posts WHERE id = ?"
}

/// Insert a candidate and read the engine-assigned id back in the same
/// round trip: no separate max-id query, so concurrent writers cannot
/// collide.
pub fn insert_sql() -> (r: &'static str)
    ensures
        r@ == "INSERT INTO blog_posts (date, title, body, author) VALUES (?, ?, ?, ?) RETURNING id"@,
{
    "INSERT INTO blog_posts (date, title, body, author) VALUES (?, ?, ?, ?) RETURNING id"
}

/// A fetched row turned back into a record.
pub fn row_to_post(id: i32, date: String, title: String, body: String, author: String) -> (p:
    BlogPost)
    ensures
        p@ == (PostView { id: id as int, date: date@, title: title@, body: body@, author: author@ }),
{
    BlogPost { id, date, title, body, author }
}

/// What a row lookup produced, as the driver reports it: a row, no
/// matching row, or a failed connection or query.
pub enum FetchOutcome {
    Row(BlogPost),
    NoRow,
    Failed,
}

/// The store result of a lookup: a missing row is `NotFound`, a driver
/// failure is `StorageUnavailable`, and nothing is retried.
pub fn get_result(o: FetchOutcome) -> (r: Result<BlogPost, StoreError>)
    ensures
        o matches FetchOutcome::Row(p) ==> (r matches Ok(q) && q@ == p@),
        o is NoRow ==> (r matches Err(e) && e == StoreError::NotFound),
        o is Failed ==> (r matches Err(e) && e == StoreError::StorageUnavailable),
{
    match o {
        FetchOutcome::Row(p) => Ok(p),
        FetchOutcome::NoRow => Err(StoreError::NotFound),
        FetchOutcome::Failed => Err(StoreError::StorageUnavailable),
    }
}

/// What a whole-table query produced.
pub enum RowsOutcome {
    Rows(Vec<BlogPost>),
    Failed,
}

/// The store result of a listing: every fetched row, in the order the
/// engine returned them, or `StorageUnavailable`.
pub fn list_result(o: RowsOutcome) -> (r: Result<Vec<BlogPost>, StoreError>)
    ensures
        o matches RowsOutcome::Rows(ps) ==> (r matches Ok(qs) && qs@ == ps@),
        o is Failed ==> (r matches Err(e) && e == StoreError::StorageUnavailable),
{
    match o {
        RowsOutcome::Rows(ps) => Ok(ps),
        RowsOutcome::Failed => Err(StoreError::StorageUnavailable),
    }
}

/// What an insertion produced: the engine-assigned id, or a failure.
pub enum InsertOutcome {
    NewId(i32),
    Failed,
}

/// The store result of an insertion.
pub fn create_result(o: InsertOutcome) -> (r: Result<i32, StoreError>)
    ensures
        o matches InsertOutcome::NewId(id) ==> r == Ok::<i32, StoreError>(id),
        o is Failed ==> (r matches Err(e) && e == StoreError::StorageUnavailable),
{
    match o {
        InsertOutcome::NewId(id) => Ok(id),
        InsertOutcome::Failed => Err(StoreError::StorageUnavailable),
    }
}

/// Where the durable variant stands while starting up.  Configuration,
/// connection and migration happen in that order, before any route is
/// served; a failure at any of them is fatal, never retried.
#[derive(Clone, Copy, Debug, PartialEq, Eq, Structural)]
pub enum StartupPhase {
    LoadConfig,
    Connect,
    Migrate,
    Serve,
    Abort,
}

/// One startup step: on success the next phase in order, on failure
/// `Abort`.  `Serve` and `Abort` are terminal.
pub fn startup_advance(p: StartupPhase, ok: bool) -> (n: StartupPhase)
    ensures
        p == StartupPhase::LoadConfig && ok ==> n == StartupPhase::Connect,
        p == StartupPhase::Connect && ok ==> n == StartupPhase::Migrate,
        p == StartupPhase::Migrate && ok ==> n == StartupPhase::Serve,
        !ok && p != StartupPhase::Serve && p != StartupPhase::Abort ==> n == StartupPhase::Abort,
        p == StartupPhase::Serve ==> n == StartupPhase::Serve,
        p == StartupPhase::Abort ==> n == StartupPhase::Abort,
{
    match p {
        StartupPhase::LoadConfig => if ok {
            StartupPhase::Connect
        } else {
            StartupPhase::Abort
        },
        StartupPhase::Connect => if ok {
            StartupPhase::Migrate
        } else {
            StartupPhase::Abort
        },
        StartupPhase::Migrate => if ok {
            StartupPhase::Serve
        } else {
            StartupPhase::Abort
        },
        StartupPhase::Serve => StartupPhase::Serve,
        StartupPhase::Abort => StartupPhase::Abort,
    }
}

} // verus!

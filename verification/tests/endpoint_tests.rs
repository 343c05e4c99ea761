use blogstore::codec::encode_post_no_id;
use blogstore::decode::decode_post;
use blogstore::durable::{
    create_result, get_result, insert_sql, list_result, migration_sql, row_to_post,
    select_all_sql, select_one_sql, startup_advance, FetchOutcome, InsertOutcome, RowsOutcome,
    StartupPhase,
};
use blogstore::endpoint::{
    handle_new, reply_all, reply_created, reply_get, reply_root, reply_stored_get,
    reply_stored_list,
};
use blogstore::post::BlogPost;
use blogstore::store::{StoreError, VolatileStore};

fn candidate(title: &str, body: &str, author: &str) -> BlogPost {
    BlogPost::new(String::from("2024-01-01"), String::from(title), String::from(body), String::from(author))
}

#[test]
fn root_route_greets() {
    let r = reply_root();
    assert_eq!(r.status, 200);
    assert_eq!(r.body, "Hello, world!");
}

#[test]
fn list_route_returns_every_record() {
    let store = VolatileStore::new_seeded();
    let r = reply_all(&store);
    assert_eq!(r.status, 200);
    let value: serde_json::Value = serde_json::from_str(&r.body).unwrap();
    let items = value.as_array().unwrap();
    assert_eq!(items.len(), 2);
    assert_eq!(items[0].get("id").unwrap().as_i64(), Some(1));
    assert_eq!(items[0].get("title").unwrap().as_str(), Some("A Tale of Two Cities"));
    assert_eq!(items[1].get("id").unwrap().as_i64(), Some(2));
    assert_eq!(items[1].get("author").unwrap().as_str(), Some("Melville"));
}

#[test]
fn get_route_returns_the_record() {
    let store = VolatileStore::new_seeded();
    let r = reply_get(&store, 2);
    assert_eq!(r.status, 200);
    let back = decode_post(&r.body).unwrap();
    assert_eq!(back.title, "Moby Dick");
    assert_eq!(back.author, "Melville");
}

#[test]
fn scenario_get_unknown_id_is_a_not_found_response() {
    let store = VolatileStore::new_seeded();
    let r = reply_get(&store, 999);
    assert_eq!(r.status, 404);
}

#[test]
fn create_route_assigns_the_next_id() {
    let mut store = VolatileStore::new_seeded();
    let body = encode_post_no_id(&candidate("X", "Y", "Z"));
    let r = handle_new(&mut store, &body);
    assert_eq!(r.status, 200);
    assert_eq!(r.body, "3");
    assert_eq!(store.len(), 3);
    let read = store.get(3).unwrap();
    assert_eq!(read.title, "X");
    assert_eq!(read.body, "Y");
    assert_eq!(read.author, "Z");
}

#[test]
fn create_route_rejects_malformed_bodies_untouched() {
    let mut store = VolatileStore::new_seeded();
    let r = handle_new(&mut store, "not a record");
    assert_eq!(r.status, 400);
    assert_eq!(store.len(), 2);
}

#[test]
fn stored_get_outcomes_map_to_statuses() {
    let p = row_to_post(4, String::from("d"), String::from("t"), String::from("b"), String::from("a"));
    let ok = reply_stored_get(get_result(FetchOutcome::Row(p)));
    assert_eq!(ok.status, 200);
    let back = decode_post(&ok.body).unwrap();
    assert_eq!(back.title, "t");
    let missing = reply_stored_get(get_result(FetchOutcome::NoRow));
    assert_eq!(missing.status, 404);
    let down = reply_stored_get(get_result(FetchOutcome::Failed));
    assert_eq!(down.status, 500);
}

#[test]
fn stored_list_and_create_outcomes_map_to_statuses() {
    let rows = vec![row_to_post(1, String::from("d"), String::from("t"), String::from("b"), String::from("a"))];
    let ok = reply_stored_list(list_result(RowsOutcome::Rows(rows)));
    assert_eq!(ok.status, 200);
    let down = reply_stored_list(list_result(RowsOutcome::Failed));
    assert_eq!(down.status, 500);
    let created = reply_created(create_result(InsertOutcome::NewId(1)));
    assert_eq!(created.status, 200);
    assert_eq!(created.body, "1");
    let failed = reply_created(create_result(InsertOutcome::Failed));
    assert_eq!(failed.status, 500);
}

#[test]
fn storage_errors_keep_their_taxonomy() {
    assert!(matches!(get_result(FetchOutcome::NoRow), Err(StoreError::NotFound)));
    assert!(matches!(get_result(FetchOutcome::Failed), Err(StoreError::StorageUnavailable)));
    assert!(matches!(list_result(RowsOutcome::Failed), Err(StoreError::StorageUnavailable)));
    assert!(matches!(create_result(InsertOutcome::Failed), Err(StoreError::StorageUnavailable)));
}

#[test]
fn startup_runs_config_connect_migrate_then_serves() {
    let mut phase = StartupPhase::LoadConfig;
    phase = startup_advance(phase, true);
    assert_eq!(phase, StartupPhase::Connect);
    phase = startup_advance(phase, true);
    assert_eq!(phase, StartupPhase::Migrate);
    phase = startup_advance(phase, true);
    assert_eq!(phase, StartupPhase::Serve);
    assert_eq!(startup_advance(phase, false), StartupPhase::Serve);
}

#[test]
fn any_startup_failure_aborts_for_good() {
    assert_eq!(startup_advance(StartupPhase::LoadConfig, false), StartupPhase::Abort);
    assert_eq!(startup_advance(StartupPhase::Connect, false), StartupPhase::Abort);
    assert_eq!(startup_advance(StartupPhase::Migrate, false), StartupPhase::Abort);
    assert_eq!(startup_advance(StartupPhase::Abort, true), StartupPhase::Abort);
}

#[test]
fn sql_statements_are_the_fixed_ones() {
    assert_eq!(
        migration_sql(),
        "CREATE TABLE IF NOT EXISTS blog_posts (id INTEGER PRIMARY KEY AUTOINCREMENT, date TEXT NOT NULL, title TEXT NOT NULL, body TEXT NOT NULL, author TEXT NOT NULL)"
    );
    assert_eq!(select_all_sql(), "SELECT id, date, title, body, author FROM blog_posts");
    assert_eq!(select_one_sql(), "SELECT id, date, title, body, author FROM blog_posts WHERE id = ?");
    assert_eq!(
        insert_sql(),
        "INSERT INTO blog_posts (date, title, body, author) VALUES (?, ?, ?, ?) RETURNING id"
    );
}

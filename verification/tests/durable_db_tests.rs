use std::time::{SystemTime, UNIX_EPOCH};

use sqlx::{Row, SqlitePool};

use blogstore::durable::{
    get_result, insert_sql, migration_sql, row_to_post, select_all_sql, select_one_sql,
    FetchOutcome,
};
use blogstore::store::StoreError;

#[test]
fn scenario_durable_fresh_database_create_and_restart() {
    // a fresh database: migrate (twice, to show idempotence), serve an
    // empty listing, create a record that gets id 1; then reconnect as
    // a restarted process would and find that one record still there
    let nanos = SystemTime::now().duration_since(UNIX_EPOCH).unwrap().as_nanos();
    let url = format!("sqlite:///tmp/blogstore_scenario_{}.db?mode=rwc", nanos);
    let rt = tokio::runtime::Builder::new_current_thread().enable_all().build().unwrap();
    rt.block_on(async {
        let pool = SqlitePool::connect(&url).await.unwrap();
        sqlx::query(migration_sql()).execute(&pool).await.unwrap();
        sqlx::query(migration_sql()).execute(&pool).await.unwrap();
        let rows = sqlx::query(select_all_sql()).fetch_all(&pool).await.unwrap();
        assert_eq!(rows.len(), 0);
        let id: i32 = sqlx::query(insert_sql())
            .bind("2024-01-01")
            .bind("t")
            .bind("b")
            .bind("a")
            .fetch_one(&pool)
            .await
            .unwrap()
            .get("id");
        assert_eq!(id, 1);
        pool.close().await;

        let pool = SqlitePool::connect(&url).await.unwrap();
        sqlx::query(migration_sql()).execute(&pool).await.unwrap();
        let rows = sqlx::query(select_all_sql()).fetch_all(&pool).await.unwrap();
        assert_eq!(rows.len(), 1);
        let row = sqlx::query(select_one_sql()).bind(1).fetch_optional(&pool).await.unwrap();
        let outcome = match row {
            Some(r) => FetchOutcome::Row(row_to_post(
                r.get("id"),
                r.get("date"),
                r.get("title"),
                r.get("body"),
                r.get("author"),
            )),
            None => FetchOutcome::NoRow,
        };
        let post = get_result(outcome).unwrap();
        assert_eq!(post.id, 1);
        assert_eq!(post.title, "t");
        assert_eq!(post.date, "2024-01-01");

        let missing = sqlx::query(select_one_sql()).bind(999).fetch_optional(&pool).await.unwrap();
        assert!(missing.is_none());
        assert!(matches!(get_result(FetchOutcome::NoRow), Err(StoreError::NotFound)));
        pool.close().await;
    });
}

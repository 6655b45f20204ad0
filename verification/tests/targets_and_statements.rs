use db_reconcile::pool::{
    database_file_name, postgres_target, sqlite_target, JournalMode, POSTGRES_MAX_CONNECTIONS,
};
use db_reconcile::sql::{repair_statement, txid_query, Dialect};

#[test]
fn sqlite_target_points_at_the_file() {
    let target = sqlite_target("/var/lib/app/db.sqlite");
    assert_eq!(target.url, "sqlite:///var/lib/app/db.sqlite");
    assert!(target.create_if_missing);
    assert_eq!(target.journal_mode, JournalMode::Delete);
}

#[test]
fn database_file_is_named_db_sqlite() {
    assert_eq!(database_file_name(), "db.sqlite");
}

#[test]
fn postgres_target_keeps_the_url_and_bounds_the_pool() {
    let target = postgres_target("postgres://user@host:5432/app");
    assert_eq!(target.url, "postgres://user@host:5432/app");
    assert_eq!(target.max_connections, 10);
    assert_eq!(POSTGRES_MAX_CONNECTIONS, 10);
}

#[test]
fn repair_statement_binds_in_the_dialect_of_the_backend() {
    assert_eq!(
        repair_statement(Dialect::Sqlite),
        "UPDATE _sqlx_migrations SET checksum = ? WHERE version = ?"
    );
    assert_eq!(
        repair_statement(Dialect::Postgres),
        "UPDATE _sqlx_migrations SET checksum = $1 WHERE version = $2"
    );
}

#[test]
fn txid_query_casts_through_text() {
    assert_eq!(txid_query(), "SELECT pg_current_xact_id()::text::bigint");
}

use std::borrow::Cow;

use db_reconcile::reconcile::{Action, Failure, Outcome, Reconciler};
use db_reconcile::runner::{manifest_of, report_of};
use db_reconcile::sql::{repair_statement, Dialect};
use db_reconcile::toggle::skip_requested;
use sqlx::migrate::{MigrationType, Migrator};
use sqlx::sqlite::SqlitePoolOptions;
use sqlx::{Pool, Sqlite};

struct Tally {
    outcome: Outcome,
    runs: usize,
    writes: usize,
}

fn step(version: i64, sql: &'static str) -> sqlx::migrate::Migration {
    sqlx::migrate::Migration::new(
        version,
        Cow::Borrowed("step"),
        MigrationType::Simple,
        Cow::Borrowed(sql),
        false,
    )
}

fn three_steps() -> Migrator {
    let migrations = vec![
        step(1, "CREATE TABLE a (id INTEGER PRIMARY KEY)"),
        step(2, "CREATE TABLE b (id INTEGER PRIMARY KEY)"),
        step(3, "CREATE TABLE c (id INTEGER PRIMARY KEY)"),
    ];
    Migrator { migrations: Cow::Owned(migrations), ..Migrator::DEFAULT }
}

async fn fresh_database() -> Pool<Sqlite> {
    SqlitePoolOptions::new()
        .max_connections(1)
        .connect("sqlite::memory:")
        .await
        .expect("an in-memory database")
}

async fn reconcile(pool: &Pool<Sqlite>, migrator: &Migrator, toggle: Option<&str>) -> Tally {
    let manifest = manifest_of(migrator).expect("ascending versions");
    let (mut reconciler, mut action) = Reconciler::begin(skip_requested(toggle));
    let mut runs = 0;
    let mut writes = 0;
    loop {
        assert!(runs + writes < 20, "the loop must end");
        match action {
            Action::RunMigrations => {
                runs += 1;
                let result = migrator.run(pool).await;
                action = reconciler.on_report(&manifest, report_of(&result));
            }
            Action::OverwriteChecksum { version, checksum } => {
                writes += 1;
                let result = sqlx::query(repair_statement(Dialect::Sqlite))
                    .bind(checksum)
                    .bind(version)
                    .execute(pool)
                    .await;
                action = reconciler.on_repair(result.is_ok());
            }
            Action::Finish(outcome) => return Tally { outcome, runs, writes },
        }
    }
}

async fn history(pool: &Pool<Sqlite>) -> Vec<(i64, Vec<u8>)> {
    sqlx::query_as::<_, (i64, Vec<u8>)>(
        "SELECT version, checksum FROM _sqlx_migrations ORDER BY version",
    )
    .fetch_all(pool)
    .await
    .expect("the history table")
}

fn shipped(migrator: &Migrator) -> Vec<(i64, Vec<u8>)> {
    migrator.iter().map(|m| (m.version, m.checksum.to_vec())).collect()
}

#[test]
fn sqlite_fresh_database_is_reconciled_in_one_pass() {
    sqlx::test_block_on(async {
        let pool = fresh_database().await;
        let migrator = three_steps();
        let tally = reconcile(&pool, &migrator, None).await;
        assert_eq!(tally.outcome, Outcome::Reconciled);
        assert_eq!(tally.runs, 1);
        assert_eq!(tally.writes, 0);
        assert_eq!(history(&pool).await, shipped(&migrator));
    });
}

#[test]
fn sqlite_second_reconciliation_writes_nothing() {
    sqlx::test_block_on(async {
        let pool = fresh_database().await;
        let migrator = three_steps();
        reconcile(&pool, &migrator, None).await;
        let before = history(&pool).await;
        let tally = reconcile(&pool, &migrator, Some("false")).await;
        assert_eq!(tally.outcome, Outcome::Reconciled);
        assert_eq!(tally.writes, 0);
        assert_eq!(history(&pool).await, before);
    });
}

#[test]
fn sqlite_drifted_checksum_is_repaired_once() {
    sqlx::test_block_on(async {
        let pool = fresh_database().await;
        let migrator = three_steps();
        reconcile(&pool, &migrator, None).await;
        sqlx::query("UPDATE _sqlx_migrations SET checksum = ? WHERE version = ?")
            .bind(vec![0u8, 1, 2])
            .bind(2i64)
            .execute(&pool)
            .await
            .expect("a write behind the runner's back");
        assert_ne!(history(&pool).await, shipped(&migrator));
        let tally = reconcile(&pool, &migrator, None).await;
        assert_eq!(tally.outcome, Outcome::Reconciled);
        assert_eq!(tally.runs, 2);
        assert_eq!(tally.writes, 1);
        assert_eq!(history(&pool).await, shipped(&migrator));
    });
}

#[test]
fn sqlite_every_drifted_checksum_is_repaired() {
    sqlx::test_block_on(async {
        let pool = fresh_database().await;
        let migrator = three_steps();
        reconcile(&pool, &migrator, None).await;
        sqlx::query("UPDATE _sqlx_migrations SET checksum = ?")
            .bind(vec![9u8])
            .execute(&pool)
            .await
            .expect("a write behind the runner's back");
        let tally = reconcile(&pool, &migrator, None).await;
        assert_eq!(tally.outcome, Outcome::Reconciled);
        assert_eq!(tally.runs, 4);
        assert_eq!(tally.writes, 3);
        assert_eq!(history(&pool).await, shipped(&migrator));
    });
}

#[test]
fn sqlite_record_outside_the_manifest_fails_without_a_write() {
    sqlx::test_block_on(async {
        let pool = fresh_database().await;
        reconcile(&pool, &three_steps(), None).await;
        let before = history(&pool).await;
        let fewer = Migrator {
            migrations: Cow::Owned(vec![step(1, "CREATE TABLE a (id INTEGER PRIMARY KEY)")]),
            ..Migrator::DEFAULT
        };
        let tally = reconcile(&pool, &fewer, None).await;
        assert!(matches!(tally.outcome, Outcome::Failed(Failure::Runner)));
        assert_eq!(tally.runs, 1);
        assert_eq!(tally.writes, 0);
        assert_eq!(history(&pool).await, before);
    });
}

#[test]
fn sqlite_skip_touches_no_table() {
    sqlx::test_block_on(async {
        let pool = fresh_database().await;
        let migrator = three_steps();
        for value in ["1", "TRUE"] {
            let tally = reconcile(&pool, &migrator, Some(value)).await;
            assert_eq!(tally.outcome, Outcome::Skipped);
            assert_eq!(tally.runs, 0);
            assert_eq!(tally.writes, 0);
        }
        let tables: Vec<(String,)> =
            sqlx::query_as::<_, (String,)>("SELECT name FROM sqlite_master WHERE type = 'table'")
                .fetch_all(&pool)
                .await
                .expect("the schema table");
        assert!(tables.is_empty());
    });
}

use std::path::Path;

use db_reconcile::connect::{sqlite_connect_options, TargetError};
use db_reconcile::pool::{sqlite_target, JournalMode, SqliteTarget};

#[test]
fn options_point_at_the_file_of_the_target() {
    let target = sqlite_target("/var/lib/app/db.sqlite");
    let options = sqlite_connect_options(&target).expect("a plain path");
    assert_eq!(options.get_filename(), Path::new("/var/lib/app/db.sqlite"));
}

#[test]
fn options_create_the_file_and_keep_the_journal_in_delete_mode() {
    let target = sqlite_target("/var/lib/app/db.sqlite");
    let options = sqlite_connect_options(&target).expect("a plain path");
    let shown = format!("{:?}", options);
    assert!(shown.contains("create_if_missing: true"), "{shown}");
    assert!(shown.contains("DELETE"), "{shown}");
    assert!(!shown.contains("WAL"), "{shown}");
}

#[test]
fn options_follow_the_target() {
    let target = SqliteTarget {
        url: String::from("sqlite://other.db"),
        create_if_missing: false,
        journal_mode: JournalMode::Wal,
    };
    let options = sqlite_connect_options(&target).expect("a plain path");
    let shown = format!("{:?}", options);
    assert_eq!(options.get_filename(), Path::new("other.db"));
    assert!(shown.contains("create_if_missing: false"), "{shown}");
    assert!(shown.contains("WAL"), "{shown}");
}

#[test]
fn unknown_parameter_in_the_connection_string_is_refused() {
    let target = sqlite_target("db.sqlite?bogus=1");
    match sqlite_connect_options(&target) {
        Err(TargetError::Url(sqlx::Error::Configuration(_))) => {}
        other => panic!("expected a configuration error, got {:?}", other.map(|_| ())),
    }
}

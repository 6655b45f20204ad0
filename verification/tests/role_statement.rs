use db_reconcile::role::{escape_password, role_password_statement};

#[test]
fn empty_password_gives_no_statement() {
    assert_eq!(role_password_statement(""), None);
}

#[test]
fn plain_password_is_embedded_as_it_is() {
    assert_eq!(
        role_password_statement("s3cret"),
        Some(String::from("ALTER ROLE electric_sync WITH PASSWORD 's3cret'"))
    );
}

#[test]
fn single_quote_is_doubled() {
    assert_eq!(
        role_password_statement("O'Brien"),
        Some(String::from("ALTER ROLE electric_sync WITH PASSWORD 'O''Brien'"))
    );
}

#[test]
fn escape_doubles_every_quote() {
    assert_eq!(escape_password("O'Brien"), "O''Brien");
    assert_eq!(escape_password("'"), "''");
    assert_eq!(escape_password("''"), "''''");
    assert_eq!(escape_password("a'b'c"), "a''b''c");
    assert_eq!(escape_password("'x'"), "''x''");
}

#[test]
fn escape_leaves_other_text_alone() {
    assert_eq!(escape_password(""), "");
    assert_eq!(escape_password("plain"), "plain");
    assert_eq!(escape_password("dou\"ble"), "dou\"ble");
    assert_eq!(escape_password("pässwörd"), "pässwörd");
    assert_eq!(escape_password("日本'語"), "日本''語");
}

#[test]
fn escape_agrees_with_replace() {
    let samples = ["", "'", "it's", "''''", "no quotes", "müller's", "a'", "'a"];
    for sample in samples {
        assert_eq!(escape_password(sample), sample.replace("'", "''"));
    }
}

#[test]
fn escaped_password_reads_back_as_the_password() {
    let escaped = escape_password("O'Brien");
    assert_eq!(escaped.replace("''", "'"), "O'Brien");
}

use db_reconcile::toggle::skip_requested;

#[test]
fn one_switches_migrations_off() {
    assert!(skip_requested(Some("1")));
}

#[test]
fn true_switches_migrations_off_in_any_case() {
    assert!(skip_requested(Some("true")));
    assert!(skip_requested(Some("TRUE")));
    assert!(skip_requested(Some("True")));
    assert!(skip_requested(Some("tRuE")));
}

#[test]
fn other_values_leave_migrations_on() {
    assert!(!skip_requested(Some("false")));
    assert!(!skip_requested(Some("no")));
    assert!(!skip_requested(Some("")));
    assert!(!skip_requested(Some("0")));
    assert!(!skip_requested(Some("yes")));
    assert!(!skip_requested(Some("11")));
    assert!(!skip_requested(Some("truee")));
    assert!(!skip_requested(Some("tru")));
    assert!(!skip_requested(Some(" true")));
    assert!(!skip_requested(Some("trüe")));
    assert!(!skip_requested(Some("é")));
}

#[test]
fn unset_toggle_leaves_migrations_on() {
    assert!(!skip_requested(None));
}

use db_reconcile::manifest::{position, Manifest, Migration};

fn migration(version: i64, checksum: &[u8]) -> Migration {
    Migration { version, checksum: checksum.to_vec() }
}

#[test]
fn ascending_versions_make_a_manifest() {
    let manifest = Manifest::new(vec![migration(1, b"a"), migration(2, b"b"), migration(5, b"c")]);
    let manifest = manifest.expect("ascending versions");
    assert_eq!(manifest.len(), 3);
    assert_eq!(manifest.get(0), Some(&migration(1, b"a")));
    assert_eq!(manifest.get(2), Some(&migration(5, b"c")));
    assert_eq!(manifest.get(3), None);
}

#[test]
fn empty_manifest_is_accepted() {
    let manifest = Manifest::new(Vec::new()).expect("no entries");
    assert_eq!(manifest.len(), 0);
    assert_eq!(manifest.get(0), None);
    assert_eq!(manifest.find(1), None);
}

#[test]
fn repeated_version_is_refused() {
    assert!(Manifest::new(vec![migration(1, b"a"), migration(1, b"b")]).is_none());
}

#[test]
fn descending_versions_are_refused() {
    assert!(Manifest::new(vec![migration(2, b"a"), migration(1, b"b")]).is_none());
    assert!(Manifest::new(vec![migration(1, b"a"), migration(3, b"b"), migration(2, b"c")]).is_none());
}

#[test]
fn find_gives_the_entry_of_a_version() {
    let manifest = Manifest::new(vec![migration(-4, b"n"), migration(10, b"x"), migration(20, b"y")])
        .expect("ascending versions");
    assert_eq!(manifest.find(10), Some(&migration(10, b"x")));
    assert_eq!(manifest.find(-4), Some(&migration(-4, b"n")));
    assert_eq!(manifest.find(20), Some(&migration(20, b"y")));
    assert_eq!(manifest.find(15), None);
}

#[test]
fn position_gives_the_first_match() {
    let items = vec![migration(3, b"a"), migration(7, b"b"), migration(3, b"c")];
    assert_eq!(position(&items, 3), Some(0));
    assert_eq!(position(&items, 7), Some(1));
    assert_eq!(position(&items, 8), None);
}

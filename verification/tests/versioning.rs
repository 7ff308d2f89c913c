use rsync_backup::timestamp::is_valid_snapshot_name;
use rsync_backup::versioning::{
    check_entry, join_path, resolve_versioning, resolve_versioning_now, DirEntryInfo,
    EntryFault, EntryKind, InvalidSnapshotEntry, LinkThreshold, ResolvedVersioning,
    SnapshotSet,
};

fn dir(name: &str) -> DirEntryInfo {
    DirEntryInfo { name: name.to_string(), kind: EntryKind::Directory }
}

fn file(name: &str) -> DirEntryInfo {
    DirEntryInfo { name: name.to_string(), kind: EntryKind::NotDirectory }
}

fn unreadable(name: &str) -> DirEntryInfo {
    DirEntryInfo { name: name.to_string(), kind: EntryKind::Unreadable }
}

fn invalid(name: &str, fault: EntryFault) -> InvalidSnapshotEntry {
    InvalidSnapshotEntry { name: name.to_string(), fault }
}

#[test]
fn empty_root_gives_no_link_reference() {
    let r = resolve_versioning("/backup", &[], "202403030303", LinkThreshold::AtLeastOne);
    assert_eq!(
        r,
        Ok(ResolvedVersioning {
            new_snapshot_path: "/backup/202403030303".to_string(),
            link_reference: None,
        })
    );
    let r = resolve_versioning("/backup", &[], "202403030303", LinkThreshold::AtLeastTwo);
    assert_eq!(r.unwrap().link_reference, None);
}

#[test]
fn stray_entry_fails_the_run_and_is_named() {
    let entries = [dir("202401010000"), dir("202402020000"), dir("notadate")];
    let r = resolve_versioning("/backup", &entries, "202403030303", LinkThreshold::AtLeastOne);
    assert_eq!(r, Err(invalid("notadate", EntryFault::NotATimestamp)));
    let e = r.unwrap_err();
    assert!(e.message().contains("notadate"));
    assert_eq!(
        e.message(),
        "Directory entry name notadate is not in datetime format of YYYYmmddHHMM"
    );
}

#[test]
fn stray_entry_fails_the_run_wherever_it_stands() {
    for at in 0..3 {
        let mut entries = vec![dir("202401010000"), dir("202402020000")];
        entries.insert(at, dir("notadate"));
        let r = resolve_versioning("/b", &entries, "202403030303", LinkThreshold::AtLeastOne);
        assert_eq!(r, Err(invalid("notadate", EntryFault::NotATimestamp)));
    }
}

#[test]
fn latest_snapshot_is_the_link_reference() {
    let entries = [dir("202401010000"), dir("202402020000")];
    let r = resolve_versioning("/backup", &entries, "202403030303", LinkThreshold::AtLeastOne);
    assert_eq!(
        r,
        Ok(ResolvedVersioning {
            new_snapshot_path: "/backup/202403030303".to_string(),
            link_reference: Some("/backup/202402020000".to_string()),
        })
    );
    let entries = [dir("202402020000"), dir("202401010000")];
    let r = resolve_versioning("/backup", &entries, "202403030303", LinkThreshold::AtLeastOne);
    assert_eq!(r.unwrap().link_reference, Some("/backup/202402020000".to_string()));
}

#[test]
fn single_snapshot_is_linked_unless_two_are_asked_for() {
    let entries = [dir("202401010000")];
    let r = resolve_versioning("/backup", &entries, "202403030303", LinkThreshold::AtLeastOne);
    assert_eq!(r.unwrap().link_reference, Some("/backup/202401010000".to_string()));
    let r = resolve_versioning("/backup", &entries, "202403030303", LinkThreshold::AtLeastTwo);
    assert_eq!(r.unwrap().link_reference, None);
    let entries = [dir("202401010000"), dir("202312312359")];
    let r = resolve_versioning("/backup", &entries, "202403030303", LinkThreshold::AtLeastTwo);
    assert_eq!(r.unwrap().link_reference, Some("/backup/202401010000".to_string()));
}

#[test]
fn threshold_defaults_to_one() {
    assert_eq!(LinkThreshold::default(), LinkThreshold::AtLeastOne);
    assert_eq!(LinkThreshold::AtLeastOne.min_prior(), 1);
    assert_eq!(LinkThreshold::AtLeastTwo.min_prior(), 2);
}

#[test]
fn new_snapshot_may_collide_with_an_old_one() {
    let entries = [dir("202401010000")];
    let r = resolve_versioning("/b", &entries, "202401010000", LinkThreshold::AtLeastOne);
    assert_eq!(
        r,
        Ok(ResolvedVersioning {
            new_snapshot_path: "/b/202401010000".to_string(),
            link_reference: Some("/b/202401010000".to_string()),
        })
    );
}

#[test]
fn first_fault_in_the_listing_is_the_error() {
    let entries = [dir("202401010000"), file("202402020000"), dir("notadate"), unreadable("x")];
    let r = resolve_versioning("/b", &entries, "202403030303", LinkThreshold::AtLeastOne);
    assert_eq!(r, Err(invalid("202402020000", EntryFault::NotADirectory)));
    let entries = [unreadable("x"), dir("notadate")];
    let r = resolve_versioning("/b", &entries, "202403030303", LinkThreshold::AtLeastOne);
    assert_eq!(r, Err(invalid("x", EntryFault::UnreadableType)));
}

#[test]
fn entry_is_checked_by_kind_and_then_by_name() {
    assert_eq!(check_entry(&dir("202401010000")).unwrap().as_str(), "202401010000");
    assert_eq!(
        check_entry(&file("202401010000")),
        Err(invalid("202401010000", EntryFault::NotADirectory))
    );
    assert_eq!(
        check_entry(&file("notes.txt")),
        Err(invalid("notes.txt", EntryFault::NotADirectory))
    );
    assert_eq!(
        check_entry(&unreadable("202401010000")),
        Err(invalid("202401010000", EntryFault::UnreadableType))
    );
    assert_eq!(
        check_entry(&dir("202402300000")),
        Err(invalid("202402300000", EntryFault::NotATimestamp))
    );
    assert_eq!(check_entry(&dir("")), Err(invalid("", EntryFault::NotATimestamp)));
}

#[test]
fn each_fault_has_its_message() {
    assert_eq!(
        invalid("lost+found", EntryFault::NotADirectory).message(),
        "Directory entry lost+found is not a directory"
    );
    assert_eq!(
        invalid("lost+found", EntryFault::UnreadableType).message(),
        "Directory entry lost+found has a type that cannot be read"
    );
    assert_eq!(
        invalid("lost+found", EntryFault::NotATimestamp).message(),
        "Directory entry name lost+found is not in datetime format of YYYYmmddHHMM"
    );
}

#[test]
fn scan_keeps_the_order_of_the_listing() {
    let entries = [dir("202402020000"), dir("202401010000"), dir("202403030000")];
    let set = SnapshotSet::scan(&entries).unwrap();
    assert_eq!(set.len(), 3);
    assert!(!set.is_empty());
    assert_eq!(set.latest().unwrap().as_str(), "202403030000");
    let set = SnapshotSet::scan(&[]).unwrap();
    assert_eq!(set.len(), 0);
    assert!(set.is_empty());
    assert!(set.latest().is_none());
    assert_eq!(
        SnapshotSet::scan(&[dir("202401010000"), file("a")]),
        Err(invalid("a", EntryFault::NotADirectory))
    );
}

#[test]
fn latest_is_the_maximum_wherever_it_stands() {
    let names = ["202401010000", "202402020000", "202312312359", "202402020001"];
    for rotate in 0..names.len() {
        let mut entries: Vec<DirEntryInfo> = names.iter().map(|n| dir(n)).collect();
        entries.rotate_left(rotate);
        let set = SnapshotSet::scan(&entries).unwrap();
        assert_eq!(set.latest().unwrap().as_str(), "202402020001");
    }
}

#[test]
fn paths_are_joined_with_one_separator() {
    assert_eq!(join_path("/backup", "202401010000"), "/backup/202401010000");
    assert_eq!(join_path("/backup/", "202401010000"), "/backup/202401010000");
    assert_eq!(join_path("", "202401010000"), "202401010000");
    assert_eq!(join_path("/", "x"), "/x");
    assert_eq!(join_path("rel/dir", "x"), "rel/dir/x");
    assert_eq!(join_path("/backup", ""), "/backup/");
    assert_eq!(join_path("/backup", "/abs"), "/abs");
    assert_eq!(join_path("/b\u{e9}", "\u{e9}"), "/b\u{e9}/\u{e9}");
}

#[test]
fn paths_are_joined_as_the_standard_library_joins_them() {
    for base in ["", "/", "/backup", "/backup/", "a", "a/b/"] {
        for name in ["", "x", "202401010000", "/abs", "x/y"] {
            let expected = std::path::Path::new(base).join(name).to_string_lossy().to_string();
            assert_eq!(join_path(base, name), expected, "{base} {name}");
        }
    }
}

#[test]
fn resolving_now_places_the_snapshot_at_the_current_minute() {
    let entries = [dir("202401010000"), dir("202402020000")];
    let v = resolve_versioning_now("/backup", &entries, LinkThreshold::AtLeastOne).unwrap();
    assert_eq!(v.link_reference, Some("/backup/202402020000".to_string()));
    let name = v.new_snapshot_path.strip_prefix("/backup/").unwrap();
    assert!(is_valid_snapshot_name(name), "{name}");
    assert!(name > "202402020000");
    let v = resolve_versioning_now("/backup", &[], LinkThreshold::AtLeastOne).unwrap();
    assert_eq!(v.link_reference, None);
    assert!(is_valid_snapshot_name(v.new_snapshot_path.strip_prefix("/backup/").unwrap()));
}

#[test]
fn resolving_now_fails_on_a_stray_entry() {
    let entries = [dir("202401010000"), dir("notadate")];
    assert_eq!(
        resolve_versioning_now("/backup", &entries, LinkThreshold::AtLeastOne),
        Err(invalid("notadate", EntryFault::NotATimestamp))
    );
}

use whatsapp_backup::retention::{
    cleanup_old_backups, is_backup_file, is_expired, StoredFile, Timestamp,
};

const DAY: i64 = 86_400;

fn at(secs: i64, nanos: u32) -> Timestamp {
    Timestamp { secs, nanos }
}

fn file(name: &str, modified: Option<Timestamp>) -> StoredFile {
    StoredFile { name: name.to_string(), modified }
}

#[test]
fn envelopes_chunks_and_manifests_are_backup_files() {
    assert!(is_backup_file("2026-01-17_19-41-14.enc"));
    assert!(is_backup_file("2026-01-17_19-41-14.enc.001"));
    assert!(is_backup_file("2026-01-17_19-41-14.enc.1000"));
    assert!(is_backup_file("2026-01-17_19-41-14.enc.manifest"));
    assert!(is_backup_file("anything.manifest"));
    assert!(is_backup_file(".enc"));
    assert!(is_backup_file(".enc.7"));
    assert!(is_backup_file("a.enc.b.enc.12"));
}

#[test]
fn other_files_are_no_backup_files() {
    assert!(!is_backup_file(""));
    assert!(!is_backup_file("2026-01-17_19-41-14.tar.gz"));
    assert!(!is_backup_file("config.json"));
    assert!(!is_backup_file("enc"));
    assert!(!is_backup_file("notes.encrypted"));
    assert!(!is_backup_file("x.enc1"));
    assert!(!is_backup_file("manifest"));
    assert!(!is_backup_file("x.ENC"));
    assert!(!is_backup_file("a.enc.b"));
    assert!(!is_backup_file("a.enc."));
    assert!(!is_backup_file("a.enc.12a"));
    assert!(!is_backup_file("a.enc.a12"));
    assert!(!is_backup_file("a.enc.1.2"));
    assert!(!is_backup_file("a.enc.\u{663}"));
    assert!(!is_backup_file("a.enc-001"));
    assert!(!is_backup_file("123"));
}

#[test]
fn expiry_is_strict_at_the_cutoff() {
    let now = at(1_000 * DAY, 500);
    let cutoff = at(993 * DAY, 500);
    assert!(!is_expired(&cutoff, &now, 7));
    assert!(is_expired(&at(993 * DAY, 499), &now, 7));
    assert!(!is_expired(&at(993 * DAY, 501), &now, 7));
    assert!(is_expired(&at(993 * DAY - 1, 999_999_999), &now, 7));
    assert!(!is_expired(&at(993 * DAY + 1, 0), &now, 7));
}

#[test]
fn nothing_is_older_than_itself() {
    let now = at(1_700_000_000, 0);
    assert!(!is_expired(&now, &now, 0));
    assert!(is_expired(&at(1_699_999_999, 999_999_999), &now, 0));
}

#[test]
fn expiry_does_not_overflow_at_the_ends_of_time() {
    let first = at(i64::MIN, 0);
    let last = at(i64::MAX, 999_999_999);
    assert!(is_expired(&first, &last, u32::MAX));
    assert!(!is_expired(&last, &first, u32::MAX));
    assert!(!is_expired(&first, &first, u32::MAX));
    assert!(!is_expired(&first, &first, 0));
}

#[test]
fn sweep_removes_only_what_is_strictly_older_than_the_cutoff() {
    let now = at(1_000 * DAY, 0);
    let files = vec![
        file("before.enc", Some(at(993 * DAY - 1, 999_999_999))),
        file("at.enc", Some(at(993 * DAY, 0))),
        file("after.enc", Some(at(993 * DAY, 1))),
        file("new.enc", Some(at(1_000 * DAY, 0))),
    ];
    assert_eq!(cleanup_old_backups(&files, &now, 7), vec!["before.enc".to_string()]);
}

#[test]
fn sweep_treats_a_chunk_family_alike_and_keeps_other_files() {
    let now = at(1_000 * DAY, 0);
    let old = Some(at(900 * DAY, 0));
    let files = vec![
        file("s.enc.001", old),
        file("notes.txt", old),
        file("s.enc.002", old),
        file("s.enc.manifest", old),
        file("s.tar.gz", old),
        file("s.enc", old),
        file("unreadable.enc", None),
        file("", old),
        file("s.enc.part", old),
    ];
    assert_eq!(
        cleanup_old_backups(&files, &now, 7),
        vec![
            "s.enc.001".to_string(),
            "s.enc.002".to_string(),
            "s.enc.manifest".to_string(),
            "s.enc".to_string(),
        ]
    );
}

#[test]
fn sweep_of_an_empty_root_removes_nothing() {
    assert!(cleanup_old_backups(&Vec::new(), &at(0, 0), 7).is_empty());
}

#[test]
fn the_same_policy_serves_every_root() {
    let now = at(1_000 * DAY, 0);
    let local = vec![file("a.enc", Some(at(1, 0))), file("b.enc", Some(at(999 * DAY, 0)))];
    let mirror = vec![file("a.enc.001", Some(at(1, 0))), file("a.enc.manifest", Some(at(1, 0)))];
    assert_eq!(cleanup_old_backups(&local, &now, 7), vec!["a.enc".to_string()]);
    assert_eq!(
        cleanup_old_backups(&mirror, &now, 7),
        vec!["a.enc.001".to_string(), "a.enc.manifest".to_string()]
    );
}

#[test]
fn timestamps_compare_by_seconds_then_nanoseconds() {
    assert!(at(1, 0).is_before(&at(1, 1)));
    assert!(at(1, 999_999_999).is_before(&at(2, 0)));
    assert!(!at(2, 0).is_before(&at(2, 0)));
    assert!(!at(2, 0).is_before(&at(1, 999_999_999)));
    assert!(at(-1, 0).is_before(&at(0, 0)));
    assert!(at(i64::MIN, 0).is_before(&at(i64::MAX, 0)));
}

use hardcpy::catalog::{BackupEntry, Catalog, FileEntry};
use hardcpy::commands::{
    conclude_verify, delete, list, record_backup, record_file, revert, soft_delete, verify,
    Deletion, Forgotten, Reversal,
};
use hardcpy::audit::{AuditAction, AuditEvent};
use hardcpy::digest::file_digest;
use hardcpy::ident::backup_id;

fn backup(id: u64, from: &str, to: &str) -> BackupEntry {
    BackupEntry { id, from: from.to_string(), to: to.to_string(), compression: None }
}

fn file(id: u64, from: &str, to: &str, sha256: &str) -> FileEntry {
    FileEntry {
        backup_id: id,
        from: from.to_string(),
        to: to.to_string(),
        sha256: sha256.to_string(),
    }
}

fn ids(catalog: &Catalog) -> Vec<u64> {
    catalog.list_backups().iter().map(|b| b.id).collect()
}

#[test]
fn new_catalog_is_empty() {
    let catalog = Catalog::new();
    assert!(catalog.list_backups().is_empty());
    assert!(catalog.list_files(1).is_empty());
    assert_eq!(catalog.count_files(1), 0);
    assert!(catalog.find_backup(1).is_none());
}

#[test]
fn recorded_backup_is_listed_once() {
    let mut catalog = Catalog::new();
    catalog.put_backup(backup(7, "src", "dst/src"));
    let listed = catalog.list_backups();
    assert_eq!(listed.len(), 1);
    assert_eq!(listed[0].id, 7);
    assert_eq!(listed[0].from, "src");
    assert_eq!(listed[0].to, "dst/src");
    assert_eq!(listed[0].compression, None);
}

#[test]
fn same_identifier_replaces_the_record() {
    let mut catalog = Catalog::new();
    catalog.put_backup(backup(1, "a", "x"));
    catalog.put_backup(backup(2, "b", "y"));
    catalog.put_backup(backup(1, "c", "z"));
    assert_eq!(ids(&catalog), vec![2, 1]);
    let found = catalog.find_backup(1).unwrap();
    assert_eq!(found.from, "c");
    assert_eq!(found.to, "z");
    assert_eq!(catalog.find_backup(2).unwrap().from, "b");
    assert!(catalog.find_backup(3).is_none());
}

#[test]
fn files_are_kept_by_pair_of_paths() {
    let mut catalog = Catalog::new();
    catalog.put_file(file(1, "s/a", "d/a", "00"));
    catalog.put_file(file(1, "s/b", "d/b", "11"));
    catalog.put_file(file(2, "t/a", "e/a", "22"));
    catalog.put_file(file(1, "s/a", "d/a", "33"));
    assert_eq!(catalog.count_files(1), 2);
    assert_eq!(catalog.count_files(2), 1);
    assert_eq!(catalog.count_files(3), 0);
    let files = catalog.list_files(1);
    assert_eq!(files.len(), 2);
    assert_eq!(files[0].from, "s/b");
    assert_eq!(files[0].sha256, "11");
    assert_eq!(files[1].from, "s/a");
    assert_eq!(files[1].sha256, "33");
    // The same pair under another backup takes the record over.
    catalog.put_file(file(2, "s/b", "d/b", "44"));
    assert_eq!(catalog.count_files(1), 1);
    assert_eq!(catalog.count_files(2), 2);
}

#[test]
fn all_files_lists_every_record_in_order() {
    let mut catalog = Catalog::new();
    assert!(catalog.all_files().is_empty());
    catalog.put_file(file(1, "s/a", "d/a", "00"));
    catalog.put_file(file(2, "t/a", "e/a", "22"));
    catalog.put_file(file(1, "s/b", "d/b", "11"));
    let all = catalog.all_files();
    let seen: Vec<(u64, &str)> = all.iter().map(|f| (f.backup_id, f.from.as_str())).collect();
    assert_eq!(seen, vec![(1, "s/a"), (2, "t/a"), (1, "s/b")]);
}

#[test]
fn deleting_a_backup_takes_its_files_along() {
    let mut catalog = Catalog::new();
    catalog.put_backup(backup(1, "a", "x"));
    catalog.put_backup(backup(2, "b", "y"));
    catalog.put_file(file(1, "a/f", "x/f", "00"));
    catalog.put_file(file(2, "b/f", "y/f", "11"));
    catalog.put_file(file(1, "a/g", "x/g", "22"));
    assert!(catalog.delete_backup(1));
    assert_eq!(ids(&catalog), vec![2]);
    assert_eq!(catalog.count_files(1), 0);
    assert_eq!(catalog.count_files(2), 1);
    assert!(!catalog.delete_backup(1));
    assert!(!catalog.delete_backup(9));
    assert_eq!(ids(&catalog), vec![2]);
    assert_eq!(catalog.count_files(2), 1);
}

#[test]
fn create_then_list_then_delete() {
    let mut catalog = Catalog::new();
    let id = record_backup(&mut catalog, "work/photos", "mnt/photos");
    assert_eq!(id, backup_id("work/photos", "mnt/photos"));
    let lines = list(&catalog);
    assert_eq!(
        lines,
        vec![format!("ID: {}\n    Source: work/photos\n    Destination: mnt/photos", id)]
    );
    match delete(&mut catalog, id) {
        Deletion::Remove { tree, notice } => {
            assert_eq!(tree, "mnt/photos");
            assert_eq!(notice, "Deleted mnt/photos");
        }
        other => panic!("expected a removal, got {:?}", other),
    }
    assert!(list(&catalog).is_empty());
    match delete(&mut catalog, id) {
        Deletion::Unknown { notice } => assert_eq!(notice, format!("Couldn't find {}", id)),
        other => panic!("expected unknown, got {:?}", other),
    }
}

#[test]
fn soft_delete_forgets_without_naming_a_tree() {
    let mut catalog = Catalog::new();
    let id = record_backup(&mut catalog, "src", "dst/src");
    record_file(&mut catalog, id, "src/a", "dst/src/a", b"alpha");
    match soft_delete(&mut catalog, id) {
        Forgotten::Deleted { notice } => assert_eq!(notice, format!("Deleted {}", id)),
        other => panic!("expected deleted, got {:?}", other),
    }
    assert!(list(&catalog).is_empty());
    assert_eq!(catalog.count_files(id), 0);
    match soft_delete(&mut catalog, id) {
        Forgotten::Unknown { notice } => assert_eq!(notice, format!("Couldn't find \"{}\".", id)),
        other => panic!("expected unknown, got {:?}", other),
    }
}

#[test]
fn recording_the_same_pair_again_keeps_one_backup() {
    let mut catalog = Catalog::new();
    let first = record_backup(&mut catalog, "src", "dst/src");
    let second = record_backup(&mut catalog, "src", "dst/src");
    assert_eq!(first, second);
    assert_eq!(list(&catalog).len(), 1);
    let other = record_backup(&mut catalog, "src", "elsewhere/src");
    assert_ne!(first, other);
    assert_eq!(list(&catalog).len(), 2);
}

#[test]
fn list_shows_every_backup_in_order() {
    let mut catalog = Catalog::new();
    catalog.put_backup(backup(18_446_744_073_709_551_615, "a", "x"));
    catalog.put_backup(backup(0, "b c", "y/z"));
    assert_eq!(
        list(&catalog),
        vec![
            "ID: 18446744073709551615\n    Source: a\n    Destination: x".to_string(),
            "ID: 0\n    Source: b c\n    Destination: y/z".to_string(),
        ]
    );
}

#[test]
fn revert_exchanges_source_and_destination() {
    let mut catalog = Catalog::new();
    catalog.put_backup(backup(5, "home/docs", "mnt/docs"));
    match revert(&catalog, 5) {
        Reversal::Copy { source, dest } => {
            assert_eq!(source, "mnt/docs");
            assert_eq!(dest, "home/docs");
        }
        other => panic!("expected a copy, got {:?}", other),
    }
    match revert(&catalog, 6) {
        Reversal::Unknown { notice } => assert_eq!(notice, "Couldn't find 6"),
        other => panic!("expected unknown, got {:?}", other),
    }
    // Planning a reversal changes nothing.
    assert_eq!(ids(&catalog), vec![5]);
}

#[test]
fn record_file_stores_the_digest_of_the_content() {
    let mut catalog = Catalog::new();
    record_file(&mut catalog, 3, "src/a", "dst/src/a", b"hello world");
    let files = catalog.list_files(3);
    assert_eq!(files.len(), 1);
    assert_eq!(files[0].backup_id, 3);
    assert_eq!(files[0].from, "src/a");
    assert_eq!(files[0].to, "dst/src/a");
    assert_eq!(
        files[0].sha256,
        "b94d27b9934d3e08a52e52d7da7dabfac484efe37a5380ee9088f7ace2efcde9"
    );
}

#[test]
fn verify_audits_the_files_of_one_backup_and_writes_repairs_back() {
    let mut catalog = Catalog::new();
    record_file(&mut catalog, 1, "src/a", "dst/src/a", b"alpha");
    record_file(&mut catalog, 2, "other/x", "dst/other/x", b"x");
    record_file(&mut catalog, 1, "src/b", "dst/src/b", b"bravo");

    let (mut auditor, action) = verify(&catalog, 1);
    match action {
        AuditAction::Read { path } => assert_eq!(path, "dst/src/a"),
        other => panic!("expected a read, got {:?}", other),
    }
    // The first file was changed on disk; its source has changed too.
    assert!(matches!(
        auditor.step(AuditEvent::Content(Some(b"alpha!".to_vec()))),
        AuditAction::Copy { .. }
    ));
    assert!(matches!(auditor.step(AuditEvent::Copied), AuditAction::Read { .. }));
    match auditor.step(AuditEvent::Content(Some(b"alpha, revised".to_vec()))) {
        AuditAction::Read { path } => assert_eq!(path, "dst/src/b"),
        other => panic!("expected a read, got {:?}", other),
    }
    assert!(matches!(
        auditor.step(AuditEvent::Content(Some(b"bravo".to_vec()))),
        AuditAction::Done
    ));
    let report = conclude_verify(&mut catalog, auditor.finish());
    assert_eq!(report.seen, 2);
    assert_eq!(report.verified, 2);
    assert_eq!(report.copied, 1);
    assert!(report.errors.is_empty());
    assert!(report.rewritten.is_empty());

    let files = catalog.list_files(1);
    assert_eq!(files.len(), 2);
    assert_eq!(files[0].to, "dst/src/b");
    assert_eq!(files[0].sha256, file_digest(b"bravo"));
    assert_eq!(files[1].to, "dst/src/a");
    assert_eq!(files[1].sha256, file_digest(b"alpha, revised"));
    assert_eq!(catalog.count_files(2), 1);
}

#[test]
fn verify_of_an_unknown_backup_is_done_at_once() {
    let catalog = Catalog::new();
    let (auditor, action) = verify(&catalog, 99);
    assert!(matches!(action, AuditAction::Done));
    assert_eq!(auditor.finish().seen, 0);
}

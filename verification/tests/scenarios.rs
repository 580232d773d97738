use hardcpy::catalog::Catalog;
use hardcpy::audit::{AuditAction, AuditEvent};
use hardcpy::commands::{conclude_verify, list, record_backup, record_file, verify};
use hardcpy::conclusion::{Conclusion, ConclusionFields};
use hardcpy::fanout::{copy_report, scan, CopyOutcome};
use hardcpy::path::{destination_of, PathPart};
use hardcpy::report::{copy_summary, verify_summary};
use hardcpy::walk::{Entry, FoundFile, WalkAction, WalkEvent, Walker};
use sha2::{Digest, Sha256};
use std::collections::HashMap;
use std::hash::{Hash, Hasher};
use std::path::{Component, Path};

const FILE_SIZE: usize = 1024 * 1024 * 16;
const FILE_SIZE_S: usize = 1024 * 1024;

fn noise(len: usize, seed: u32) -> Vec<u8> {
    let mut x = seed;
    let mut bytes = Vec::with_capacity(len);
    for _ in 0..len {
        x = x.wrapping_mul(1_664_525).wrapping_add(1_013_904_223);
        bytes.push((x >> 24) as u8);
    }
    bytes
}

fn parts_of(path: &str) -> Vec<PathPart> {
    Path::new(path)
        .components()
        .map(|component| match component {
            Component::Prefix(_) => PathPart::Prefix,
            Component::RootDir => PathPart::RootDir,
            Component::CurDir => PathPart::CurDir,
            Component::ParentDir => PathPart::ParentDir,
            Component::Normal(name) => PathPart::Normal(name.to_string_lossy().into_owned()),
        })
        .collect()
}

fn file_name(path: &str) -> String {
    Path::new(path).file_name().unwrap().to_string_lossy().into_owned()
}

// Copies one file on the disk in memory, to where the library says it goes.
fn copy_file(
    disk: &mut HashMap<String, Vec<u8>>,
    found: &FoundFile,
    source_name: &str,
    dest_root: &str,
) -> String {
    let segments = destination_of(&parts_of(&found.path), source_name, &file_name(&found.path));
    let dest = format!("{}/{}", dest_root, segments.join("/"));
    let content = disk[&found.path].clone();
    disk.insert(dest.clone(), content);
    dest
}

fn id_as_one_string(source: &str, dest: &str) -> u64 {
    let text = format!("{}{}", source, dest);
    let mut hasher = fnv::FnvHasher::default();
    text.hash(&mut hasher);
    hasher.finish()
}

// Runs the audit of a backup against the disk in memory.
fn run_verify(catalog: &mut Catalog, disk: &mut HashMap<String, Vec<u8>>, id: u64) -> String {
    let (mut auditor, mut action) = verify(catalog, id);
    loop {
        let event = match action {
            AuditAction::Read { path } => AuditEvent::Content(disk.get(&path).cloned()),
            AuditAction::Copy { from, to } => match disk.get(&from).cloned() {
                Some(content) => {
                    disk.insert(to, content);
                    AuditEvent::Copied
                }
                None => AuditEvent::CopyFailed { error: format!("no such file {}", from) },
            },
            AuditAction::Done => break,
            AuditAction::Refused => panic!("the audit refused a report"),
        };
        action = auditor.step(event);
    }
    let report = conclude_verify(catalog, auditor.finish());
    verify_summary(&report)
}

#[test]
fn create_backup_singlethread() {
    let source = "test/test_singlethread/source";
    let dest_root = "test/test_singlethread/dest";
    let big_file = "test/test_singlethread/source/big_file";
    let content = noise(FILE_SIZE + 1, 7);
    let mut disk: HashMap<String, Vec<u8>> = HashMap::new();
    disk.insert(big_file.to_string(), content.clone());

    // Discovery and copy: one file and one empty subdirectory.
    let mut walker = Walker::start();
    assert!(matches!(
        walker.step(WalkEvent::Entry(Entry::File { path: big_file.to_string(), size: content.len() })),
        WalkAction::Next
    ));
    assert!(matches!(
        walker.step(WalkEvent::Entry(Entry::Directory { handle: 1 })),
        WalkAction::Next
    ));
    assert!(matches!(walker.step(WalkEvent::EndOfDirectory), WalkAction::Read(1)));
    let found = match walker.step(WalkEvent::EndOfDirectory) {
        WalkAction::Copy(found) => found,
        other => panic!("expected a copy, got {:?}", other),
    };
    let dest = copy_file(&mut disk, &found, "source", dest_root);
    assert_eq!(dest, "test/test_singlethread/dest/source/big_file");
    assert!(matches!(walker.step(WalkEvent::Copied { dest: dest.clone() }), WalkAction::Done));
    let conclusion = walker.finish();
    assert_eq!(conclusion.total_count, 1);
    assert_eq!(conclusion.error_count, 0);
    assert_eq!(conclusion.total_size.byte, FILE_SIZE + 1);
    assert_eq!(conclusion.total_size.mb, 16);
    assert_eq!(conclusion.path_list, vec![(big_file.to_string(), dest.clone())]);
    assert_eq!(copy_summary(&conclusion, "0.1 Seconds"), "1 files (16 MB) in 0.1 Seconds (0 errors)");

    // The catalog: one backup with the right identifier, one file record with
    // the digest of the file.
    let mut catalog = Catalog::new();
    let dest_path = format!("{}/source", dest_root);
    let id = record_backup(&mut catalog, source, &dest_path);
    assert_eq!(id, id_as_one_string(source, &dest_path));
    for (from, to) in &conclusion.path_list {
        record_file(&mut catalog, id, from, to, &disk[from]);
    }
    let backups = catalog.list_backups();
    assert_eq!(backups.len(), 1);
    assert_eq!(backups[0].id, id);
    assert_eq!(backups[0].from, source);
    assert_eq!(backups[0].to, dest_path);
    assert_eq!(list(&catalog).len(), 1);
    let files = catalog.list_files(id);
    assert_eq!(files.len(), 1);
    assert_eq!(files[0].from, big_file);
    assert_eq!(files[0].to, dest);
    assert_eq!(files[0].sha256, format!("{:x}", Sha256::digest(&content)));

    // The destination holds exactly one file, with the bytes of the source.
    let copied: Vec<&String> = disk.keys().filter(|path| path.starts_with(dest_root)).collect();
    assert_eq!(copied, vec![&dest]);
    assert_eq!(disk[&dest], content);

    // The closing audit finds nothing to repair.
    assert_eq!(
        run_verify(&mut catalog, &mut disk, id),
        "1 out of 1 files. Copied 0 files. (0 errors occured)"
    );
}

fn small_files() -> Vec<(String, Vec<u8>)> {
    let mut files = Vec::new();
    for i in 1..=16 {
        files.push((
            format!("test/test_multithread/source/small_file{}", i),
            noise(FILE_SIZE_S + 1, i as u32),
        ));
    }
    files
}

#[test]
fn create_backup_multithread() {
    let source = "test/test_multithread/source";
    let dest_root = "test/test_multithread/dest";
    let files = small_files();
    // The copy workers finish in an order of their own.
    let orders: [[usize; 16]; 3] = [
        [0, 1, 2, 3, 4, 5, 6, 7, 8, 9, 10, 11, 12, 13, 14, 15],
        [15, 14, 13, 12, 11, 10, 9, 8, 7, 6, 5, 4, 3, 2, 1, 0],
        [5, 12, 0, 9, 14, 3, 7, 1, 15, 10, 2, 8, 13, 4, 11, 6],
    ];
    for order in orders {
        let mut disk: HashMap<String, Vec<u8>> = files.iter().cloned().collect();

        // Discovery: one worker, one directory.
        let found = scan(
            files
                .iter()
                .map(|(path, content)| Entry::File { path: path.clone(), size: content.len() })
                .collect(),
        );
        assert_eq!(found.files.len(), 16);
        assert!(found.subdirs.is_empty());
        let mut conclusion = Conclusion::new();
        assert_eq!(conclusion.absorb_all(found.tallies), 32);

        // Copy: one worker per file.
        let mut list: Vec<Option<FoundFile>> = found.files.into_iter().map(Some).collect();
        let mut sent: Vec<ConclusionFields> = Vec::new();
        for at in order {
            let file = list[at].take().unwrap();
            let dest = copy_file(&mut disk, &file, "source", dest_root);
            sent.push(copy_report(file, CopyOutcome::Copied { dest }));
        }
        assert_eq!(conclusion.absorb_all(sent), 16);

        assert_eq!(conclusion.total_count, 16);
        assert_eq!(conclusion.error_count, 0);
        assert_eq!(conclusion.total_size.byte, 16 * (FILE_SIZE_S + 1));
        assert_eq!(conclusion.total_size.mb, 16);
        assert_eq!(conclusion.path_list.len(), 16);
        for (path, content) in &files {
            let dest = format!("{}/source/{}", dest_root, file_name(path));
            assert_eq!(&disk[&dest], content);
            assert!(conclusion.path_list.contains(&(path.clone(), dest)));
        }

        let mut catalog = Catalog::new();
        let id = record_backup(&mut catalog, source, &format!("{}/source", dest_root));
        for (from, to) in &conclusion.path_list {
            record_file(&mut catalog, id, from, to, &disk[from]);
        }
        assert_eq!(catalog.count_files(id), 16);
        assert_eq!(
            run_verify(&mut catalog, &mut disk, id),
            "16 out of 16 files. Copied 0 files. (0 errors occured)"
        );
    }
}

#[test]
fn tampered_backup_is_repaired_by_verify_and_stays_repaired() {
    let files = small_files();
    let mut disk: HashMap<String, Vec<u8>> = HashMap::new();
    let mut catalog = Catalog::new();
    let id = record_backup(&mut catalog, "test/test_multithread/source", "backup/source");
    for (path, content) in files.iter().take(4) {
        let dest = format!("backup/source/{}", file_name(path));
        disk.insert(path.clone(), content.clone());
        disk.insert(dest.clone(), content.clone());
        record_file(&mut catalog, id, path, &dest, content);
    }
    let sound = disk.clone();
    let victim = "backup/source/small_file3".to_string();
    disk.get_mut(&victim).unwrap()[1000] ^= 0x01;
    assert_ne!(disk, sound);

    assert_eq!(
        run_verify(&mut catalog, &mut disk, id),
        "4 out of 4 files. Copied 1 files. (0 errors occured)"
    );
    assert_eq!(disk, sound);
    assert_eq!(
        run_verify(&mut catalog, &mut disk, id),
        "4 out of 4 files. Copied 0 files. (0 errors occured)"
    );
    assert_eq!(disk, sound);
    assert_eq!(catalog.count_files(id), 4);
}

//! The catalog of backups: which backups exist, and for each of them which
//! files were copied where and with what digest.
//!
//! A backup is known by its identifier; recording a backup under an
//! identifier that is already there replaces the old record. A file record is
//! known by its pair of source and destination path; recording a file under a
//! pair that is already there replaces the old record. Deleting a backup
//! deletes its file records with it.

use crate::catalog_facts::{
    lemma_deleted_backup_is_gone, lemma_recorded_backup_is_listed_once,
    lemma_recorded_file_is_held_once,
};
use vstd::prelude::*;

verus! {

/// A backup: its identifier, the root it was copied from and the path it was
/// copied to.
#[derive(Debug)]
pub struct BackupEntry {
    pub id: u64,
    pub from: String,
    pub to: String,
    /// Reserved for the name of a codec; nothing reads it.
    pub compression: Option<String>,
}

/// A file of a backup: where it came from, where it stands, and the digest of
/// its content in lower-case hexadecimal.
#[derive(Debug)]
pub struct FileEntry {
    pub backup_id: u64,
    pub from: String,
    pub to: String,
    pub sha256: String,
}

/// A backup as a mathematical value.
pub struct BackupView {
    pub id: u64,
    pub from: Seq<char>,
    pub to: Seq<char>,
    pub compression: Option<Seq<char>>,
}

/// A file record as a mathematical value.
pub struct FileRecord {
    pub backup_id: u64,
    pub from: Seq<char>,
    pub to: Seq<char>,
    pub sha256: Seq<char>,
}

impl View for BackupEntry {
    type V = BackupView;

    open spec fn view(&self) -> BackupView {
        BackupView {
            id: self.id,
            from: self.from@,
            to: self.to@,
            compression: match self.compression {
                Some(name) => Some(name@),
                None => None,
            },
        }
    }
}

impl DeepView for BackupEntry {
    type V = BackupView;

    open spec fn deep_view(&self) -> BackupView {
        self@
    }
}

impl View for FileEntry {
    type V = FileRecord;

    open spec fn view(&self) -> FileRecord {
        FileRecord {
            backup_id: self.backup_id,
            from: self.from@,
            to: self.to@,
            sha256: self.sha256@,
        }
    }
}

impl DeepView for FileEntry {
    type V = FileRecord;

    open spec fn deep_view(&self) -> FileRecord {
        self@
    }
}

/// Holds of the backups whose identifier is not `id`.
pub open spec fn not_backup(id: u64) -> spec_fn(BackupView) -> bool {
    |backup: BackupView| backup.id != id
}

/// Holds of the file records that belong to the backup `id`.
pub open spec fn file_of(id: u64) -> spec_fn(FileRecord) -> bool {
    |file: FileRecord| file.backup_id == id
}

/// Holds of the file records that do not belong to the backup `id`.
pub open spec fn not_file_of(id: u64) -> spec_fn(FileRecord) -> bool {
    |file: FileRecord| file.backup_id != id
}

/// Holds of the file records whose pair of paths is not `from` and `to`.
pub open spec fn not_pair(from: Seq<char>, to: Seq<char>) -> spec_fn(FileRecord) -> bool {
    |file: FileRecord| !(file.from == from && file.to == to)
}

/// No two of the backups share an identifier.
pub open spec fn distinct_ids(backups: Seq<BackupView>) -> bool {
    forall|i: int, j: int|
        0 <= i < j < backups.len() ==> (#[trigger] backups[i]).id != (#[trigger] backups[j]).id
}

/// No two of the file records share a pair of paths.
pub open spec fn distinct_pairs(files: Seq<FileRecord>) -> bool {
    forall|i: int, j: int|
        0 <= i < j < files.len() ==> !((#[trigger] files[i]).from == (#[trigger] files[j]).from
            && files[i].to == files[j].to)
}

/// A catalog as a mathematical value: its backups and its file records, each
/// in the order in which they were last recorded.
pub struct CatalogView {
    pub backups: Seq<BackupView>,
    pub files: Seq<FileRecord>,
}

impl CatalogView {
    /// The catalog that holds nothing.
    pub open spec fn empty() -> CatalogView {
        CatalogView { backups: Seq::empty(), files: Seq::empty() }
    }

    /// No two backups share an identifier and no two file records share a
    /// pair of paths.
    pub open spec fn well_formed(self) -> bool {
        distinct_ids(self.backups) && distinct_pairs(self.files)
    }

    /// Whether a backup with this identifier is recorded.
    pub open spec fn has_backup(self, id: u64) -> bool {
        exists|i: int| 0 <= i < self.backups.len() && (#[trigger] self.backups[i]).id == id
    }

    /// Whether the backup `id` is recorded as copied from `from` to `to`.
    pub open spec fn names_pair(self, id: u64, from: Seq<char>, to: Seq<char>) -> bool {
        exists|i: int|
            0 <= i < self.backups.len() && (#[trigger] self.backups[i]).id == id
                && self.backups[i].from == from && self.backups[i].to == to
    }

    /// Whether the backup `id` is recorded as copied to `to`.
    pub open spec fn names_tree(self, id: u64, to: Seq<char>) -> bool {
        exists|i: int|
            0 <= i < self.backups.len() && (#[trigger] self.backups[i]).id == id
                && self.backups[i].to == to
    }

    /// The catalog after `backup` was recorded, in place of any backup with
    /// the same identifier.
    pub open spec fn put_backup(self, backup: BackupView) -> CatalogView {
        CatalogView { backups: self.backups.filter(not_backup(backup.id)).push(backup), ..self }
    }

    /// The catalog after `file` was recorded, in place of any record with the
    /// same pair of paths.
    pub open spec fn put_file(self, file: FileRecord) -> CatalogView {
        CatalogView { files: self.files.filter(not_pair(file.from, file.to)).push(file), ..self }
    }

    /// The file records of the backup `id`.
    pub open spec fn files_of(self, id: u64) -> Seq<FileRecord> {
        self.files.filter(file_of(id))
    }

    /// The catalog after the backup `id` was deleted, its file records with it.
    pub open spec fn delete_backup(self, id: u64) -> CatalogView {
        CatalogView {
            backups: self.backups.filter(not_backup(id)),
            files: self.files.filter(not_file_of(id)),
        }
    }
}

/// The catalog of backups.
#[derive(Debug)]
pub struct Catalog {
    backups: Vec<BackupEntry>,
    files: Vec<FileEntry>,
}

impl View for Catalog {
    type V = CatalogView;

    closed spec fn view(&self) -> CatalogView {
        CatalogView { backups: self.backups.deep_view(), files: self.files.deep_view() }
    }
}

fn clone_backup(backup: &BackupEntry) -> (copy: BackupEntry)
    ensures
        copy@ == backup@,
{
    BackupEntry {
        id: backup.id,
        from: backup.from.clone(),
        to: backup.to.clone(),
        compression: match &backup.compression {
            Some(name) => Some(name.clone()),
            None => None,
        },
    }
}

fn clone_file(file: &FileEntry) -> (copy: FileEntry)
    ensures
        copy@ == file@,
{
    FileEntry {
        backup_id: file.backup_id,
        from: file.from.clone(),
        to: file.to.clone(),
        sha256: file.sha256.clone(),
    }
}

/// The items of a list that a test answers with yes, in their order.
fn kept<T: DeepView, F: Fn(&T) -> bool>(
    items: Vec<T>,
    keep: F,
    Ghost(wanted): Ghost<spec_fn(T::V) -> bool>,
) -> (out: Vec<T>)
    requires
        forall|item: &T| #[trigger] keep.requires((item,)),
        forall|item: &T, answer: bool| #[trigger]
            keep.ensures((item,), answer) ==> answer == wanted(item.deep_view()),
    ensures
        out.deep_view() == items.deep_view().filter(wanted),
{
    let ghost all = items.deep_view();
    let ghost given = items@;
    let mut out: Vec<T> = Vec::new();
    proof {
        reveal(Seq::filter);
        assert(all.take(0) =~= Seq::empty());
        assert(out.deep_view() =~= all.take(0).filter(wanted));
    }
    for item in it: items
        invariant
            it.seq() == given,
            all == Seq::new(given.len(), |i: int| given[i].deep_view()),
            out.deep_view() == all.take(it.index() as int).filter(wanted),
            forall|item: &T| #[trigger] keep.requires((item,)),
            forall|item: &T, answer: bool| #[trigger]
                keep.ensures((item,), answer) ==> answer == wanted(item.deep_view()),
    {
        let ghost so_far = out.deep_view();
        proof {
            reveal(Seq::filter);
            assert(all.take(it.index() + 1).drop_last() =~= all.take(it.index() as int));
            assert(all.take(it.index() + 1).last() == item.deep_view());
        }
        if keep(&item) {
            out.push(item);
            proof {
                assert(out.deep_view() =~= so_far.push(item.deep_view()));
            }
        }
    }
    proof {
        assert(all.take(given.len() as int) =~= all);
    }
    out
}

impl Catalog {
    /// The catalog that holds nothing.
    pub fn new() -> (catalog: Catalog)
        ensures
            catalog@ == CatalogView::empty(),
            catalog@.well_formed(),
    {
        let catalog = Catalog { backups: Vec::new(), files: Vec::new() };
        assert(catalog@.backups =~= Seq::empty());
        assert(catalog@.files =~= Seq::empty());
        catalog
    }

    /// Records a backup, in place of any backup with the same identifier.
    pub fn put_backup(&mut self, backup: BackupEntry)
        ensures
            final(self)@ == old(self)@.put_backup(backup@),
            old(self)@.well_formed() ==> final(self)@.well_formed(),
    {
        proof {
            lemma_recorded_backup_is_listed_once(self@, backup@);
        }
        let id = backup.id;
        let mut before: Vec<BackupEntry> = Vec::new();
        core::mem::swap(&mut self.backups, &mut before);
        let keep = |entry: &BackupEntry| -> (answer: bool)
            ensures
                answer == (entry.id != id),
            { entry.id != id };
        self.backups = kept(before, keep, Ghost(not_backup(id)));
        let ghost others = self.backups.deep_view();
        self.backups.push(backup);
        proof {
            assert(self.backups.deep_view() =~= others.push(backup@));
        }
    }

    /// Records a file, in place of any record with the same pair of paths.
    pub fn put_file(&mut self, file: FileEntry)
        ensures
            final(self)@ == old(self)@.put_file(file@),
            old(self)@.well_formed() ==> final(self)@.well_formed(),
    {
        proof {
            lemma_recorded_file_is_held_once(self@, file@);
        }
        let mut before: Vec<FileEntry> = Vec::new();
        core::mem::swap(&mut self.files, &mut before);
        let from = &file.from;
        let to = &file.to;
        let keep = |entry: &FileEntry| -> (answer: bool)
            ensures
                answer == !(entry.from@ == from@ && entry.to@ == to@),
            { !(entry.from == *from && entry.to == *to) };
        self.files = kept(before, keep, Ghost(not_pair(file.from@, file.to@)));
        let ghost others = self.files.deep_view();
        self.files.push(file);
        proof {
            assert(self.files.deep_view() =~= others.push(file@));
        }
    }

    /// The recorded backups.
    pub fn list_backups(&self) -> (backups: Vec<BackupEntry>)
        ensures
            backups.deep_view() == self@.backups,
    {
        let mut backups: Vec<BackupEntry> = Vec::new();
        let mut i: usize = 0;
        while i < self.backups.len()
            invariant
                i <= self.backups@.len(),
                backups.deep_view() == self.backups.deep_view().take(i as int),
            decreases self.backups@.len() - i,
        {
            let ghost so_far = backups.deep_view();
            backups.push(clone_backup(&self.backups[i]));
            proof {
                assert(backups.deep_view() =~= so_far.push(self.backups@[i as int]@));
                assert(self.backups.deep_view().take(i + 1) =~= self.backups.deep_view().take(
                    i as int,
                ).push(self.backups@[i as int]@));
            }
            i += 1;
        }
        proof {
            assert(self.backups.deep_view().take(i as int) =~= self.backups.deep_view());
        }
        backups
    }

    /// The recorded backup with this identifier, if there is one.
    pub fn find_backup(&self, id: u64) -> (found: Option<BackupEntry>)
        ensures
            found is Some <==> self@.has_backup(id),
            found matches Some(backup) ==> backup@.id == id && self@.backups.contains(backup@),
    {
        let mut i: usize = 0;
        while i < self.backups.len()
            invariant
                i <= self.backups@.len(),
                forall|j: int| 0 <= j < i ==> (#[trigger] self@.backups[j]).id != id,
            decreases self.backups@.len() - i,
        {
            if self.backups[i].id == id {
                let found = clone_backup(&self.backups[i]);
                proof {
                    assert(self@.backups[i as int] == found@);
                }
                return Some(found);
            }
            i += 1;
        }
        None
    }

    /// Every file record, of whatever backup.
    pub fn all_files(&self) -> (files: Vec<FileEntry>)
        ensures
            files.deep_view() == self@.files,
    {
        let mut files: Vec<FileEntry> = Vec::new();
        let mut i: usize = 0;
        while i < self.files.len()
            invariant
                i <= self.files@.len(),
                files.deep_view() == self.files.deep_view().take(i as int),
            decreases self.files@.len() - i,
        {
            let ghost so_far = files.deep_view();
            files.push(clone_file(&self.files[i]));
            proof {
                assert(files.deep_view() =~= so_far.push(self.files@[i as int]@));
                assert(self.files.deep_view().take(i + 1) =~= self.files.deep_view().take(
                    i as int,
                ).push(self.files@[i as int]@));
            }
            i += 1;
        }
        proof {
            assert(self.files.deep_view().take(i as int) =~= self.files.deep_view());
        }
        files
    }

    /// The file records of the backup `id`.
    pub fn list_files(&self, id: u64) -> (files: Vec<FileEntry>)
        ensures
            files.deep_view() == self@.files_of(id),
    {
        let ghost all = self.files.deep_view();
        let mut files: Vec<FileEntry> = Vec::new();
        let mut i: usize = 0;
        proof {
            reveal(Seq::filter);
            assert(all.take(0) =~= Seq::empty());
            assert(files.deep_view() =~= all.take(0).filter(file_of(id)));
        }
        while i < self.files.len()
            invariant
                i <= self.files@.len(),
                all == self.files.deep_view(),
                files.deep_view() == all.take(i as int).filter(file_of(id)),
            decreases self.files@.len() - i,
        {
            let ghost so_far = files.deep_view();
            proof {
                reveal(Seq::filter);
                assert(all.take(i + 1).drop_last() =~= all.take(i as int));
                assert(all.take(i + 1).last() == self.files@[i as int]@);
            }
            if self.files[i].backup_id == id {
                files.push(clone_file(&self.files[i]));
                proof {
                    assert(files.deep_view() =~= so_far.push(self.files@[i as int]@));
                }
            }
            i += 1;
        }
        proof {
            assert(all.take(i as int) =~= all);
        }
        files
    }

    /// How many file records the backup `id` has.
    pub fn count_files(&self, id: u64) -> (count: usize)
        ensures
            count == self@.files_of(id).len(),
    {
        let ghost all = self.files.deep_view();
        let mut count: usize = 0;
        let mut i: usize = 0;
        proof {
            reveal(Seq::filter);
            assert(all.take(0) =~= Seq::empty());
        }
        while i < self.files.len()
            invariant
                i <= self.files@.len(),
                all == self.files.deep_view(),
                count == all.take(i as int).filter(file_of(id)).len(),
                count <= i,
            decreases self.files@.len() - i,
        {
            proof {
                reveal(Seq::filter);
                assert(all.take(i + 1).drop_last() =~= all.take(i as int));
                assert(all.take(i + 1).last() == self.files@[i as int]@);
            }
            if self.files[i].backup_id == id {
                count += 1;
            }
            i += 1;
        }
        proof {
            assert(all.take(i as int) =~= all);
        }
        count
    }

    /// Deletes the backup `id` and its file records. The answer says whether
    /// there was such a backup; where there was none, nothing changes.
    pub fn delete_backup(&mut self, id: u64) -> (found: bool)
        ensures
            found == old(self)@.has_backup(id),
            found ==> final(self)@ == old(self)@.delete_backup(id),
            !found ==> final(self)@ == old(self)@,
            old(self)@.well_formed() ==> final(self)@.well_formed(),
    {
        proof {
            lemma_deleted_backup_is_gone(self@, id);
        }
        if self.find_backup(id).is_none() {
            return false;
        }
        let mut backups: Vec<BackupEntry> = Vec::new();
        core::mem::swap(&mut self.backups, &mut backups);
        let other_backup = |entry: &BackupEntry| -> (answer: bool)
            ensures
                answer == (entry.id != id),
            { entry.id != id };
        self.backups = kept(backups, other_backup, Ghost(not_backup(id)));
        let mut files: Vec<FileEntry> = Vec::new();
        core::mem::swap(&mut self.files, &mut files);
        let other_file = |entry: &FileEntry| -> (answer: bool)
            ensures
                answer == (entry.backup_id != id),
            { entry.backup_id != id };
        self.files = kept(files, other_file, Ghost(not_file_of(id)));
        true
    }
}

} // verus!

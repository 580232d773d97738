//! The commands of the backup tool, as far as they are decisions: what each
//! command does to the catalog and what it asks the caller to do on disk.

use crate::catalog::{BackupEntry, BackupView, Catalog, CatalogView, FileEntry, FileRecord};
use crate::audit::{AuditAction, AuditState, Auditor, VerifyReport};
use crate::digest::{digest_text, file_digest};
use crate::ident::{backup_id, id_of};
use crate::text::{decimal, push_decimal};
use vstd::prelude::*;
use vstd::string::{StringExecFns, StringSliceAdditionalSpecFns};

verus! {

/// How one backup reads in the list of backups.
pub open spec fn listed(backup: BackupView) -> Seq<char> {
    "ID: "@ + decimal(backup.id as nat) + "\n    Source: "@ + backup.from + "\n    Destination: "@
        + backup.to
}

/// How the backups read in the list of backups, one text per backup, in the
/// catalog's order.
pub open spec fn listing(backups: Seq<BackupView>) -> Seq<Seq<char>> {
    Seq::new(backups.len(), |i: int| listed(backups[i]))
}

/// Lists the backups: for each its identifier, its source and its destination.
pub fn list(catalog: &Catalog) -> (lines: Vec<String>)
    ensures
        lines.deep_view() == listing(catalog@.backups),
{
    let backups = catalog.list_backups();
    let mut lines: Vec<String> = Vec::new();
    let mut i: usize = 0;
    while i < backups.len()
        invariant
            i <= backups@.len(),
            backups.deep_view() == catalog@.backups,
            lines.deep_view() == listing(catalog@.backups.take(i as int)),
        decreases backups@.len() - i,
    {
        let ghost before = lines.deep_view();
        let backup = &backups[i];
        let mut line = String::from_str("ID: ");
        push_decimal(&mut line, backup.id);
        line.append("\n    Source: ");
        line.append(backup.from.as_str());
        line.append("\n    Destination: ");
        line.append(backup.to.as_str());
        lines.push(line);
        proof {
            assert(backups.deep_view()[i as int] == backup@);
            assert(lines.deep_view() =~= before.push(listed(backup@)));
            assert(listing(catalog@.backups.take(i + 1)) =~= listing(
                catalog@.backups.take(i as int),
            ).push(listed(backup@)));
        }
        i += 1;
    }
    proof {
        assert(catalog@.backups.take(i as int) =~= catalog@.backups);
    }
    lines
}

/// What the operator is told when a backup is not in the catalog.
pub open spec fn not_found(id: u64) -> Seq<char> {
    "Couldn't find "@ + decimal(id as nat)
}

fn not_found_line(id: u64) -> (line: String)
    ensures
        line@ == not_found(id),
{
    let mut line = String::from_str("Couldn't find ");
    push_decimal(&mut line, id);
    line
}

/// What became of a request to forget a backup.
#[derive(Debug)]
pub enum Forgotten {
    /// The backup was in the catalog and is no longer; `notice` says so.
    Deleted { notice: String },
    /// There is no such backup; `notice` says so. The catalog is unchanged.
    Unknown { notice: String },
}

/// Forgets a backup: its record and the records of its files leave the
/// catalog, and nothing on disk is touched.
pub fn soft_delete(catalog: &mut Catalog, id: u64) -> (outcome: Forgotten)
    ensures
        match outcome {
            Forgotten::Deleted { notice } => {
                &&& old(catalog)@.has_backup(id)
                &&& final(catalog)@ == old(catalog)@.delete_backup(id)
                &&& notice@ == "Deleted "@ + decimal(id as nat)
            },
            Forgotten::Unknown { notice } => {
                &&& !old(catalog)@.has_backup(id)
                &&& final(catalog)@ == old(catalog)@
                &&& notice@ == "Couldn't find \""@ + decimal(id as nat) + "\"."@
            },
        },
        old(catalog)@.well_formed() ==> final(catalog)@.well_formed(),
{
    if catalog.delete_backup(id) {
        let mut notice = String::from_str("Deleted ");
        push_decimal(&mut notice, id);
        Forgotten::Deleted { notice }
    } else {
        let mut notice = String::from_str("Couldn't find \"");
        push_decimal(&mut notice, id);
        notice.append("\".");
        Forgotten::Unknown { notice }
    }
}

/// What became of a request to delete a backup.
#[derive(Debug)]
pub enum Deletion {
    /// The backup has left the catalog. The directory tree at `tree` is the
    /// caller's to remove; `notice` is what the operator is told.
    Remove { tree: String, notice: String },
    /// There is no such backup; `notice` says so. The catalog is unchanged
    /// and nothing is to be removed.
    Unknown { notice: String },
}

/// Deletes a backup: its record and the records of its files leave the
/// catalog, and the answer names the destination tree for the caller to
/// remove from disk. The catalog is changed first, so a failure to remove the
/// tree does not keep the record alive.
pub fn delete(catalog: &mut Catalog, id: u64) -> (outcome: Deletion)
    ensures
        match outcome {
            Deletion::Remove { tree, notice } => {
                &&& old(catalog)@.has_backup(id)
                &&& final(catalog)@ == old(catalog)@.delete_backup(id)
                &&& old(catalog)@.names_tree(id, tree@)
                &&& notice@ == "Deleted "@ + tree@
            },
            Deletion::Unknown { notice } => {
                &&& !old(catalog)@.has_backup(id)
                &&& final(catalog)@ == old(catalog)@
                &&& notice@ == not_found(id)
            },
        },
        old(catalog)@.well_formed() ==> final(catalog)@.well_formed(),
{
    match catalog.find_backup(id) {
        Some(backup) => {
            proof {
                let i = choose|i: int|
                    0 <= i < catalog@.backups.len() && catalog@.backups[i] == backup@;
                assert(catalog@.backups[i].id == id);
                assert(catalog@.names_tree(id, backup.to@));
            }
            catalog.delete_backup(id);
            let mut notice = String::from_str("Deleted ");
            notice.append(backup.to.as_str());
            Deletion::Remove { tree: backup.to, notice }
        },
        None => Deletion::Unknown { notice: not_found_line(id) },
    }
}

/// What became of a request to revert a backup.
#[derive(Debug)]
pub enum Reversal {
    /// Copy the tree at `source` to `dest`: the backup's destination is read
    /// and its source is written.
    Copy { source: String, dest: String },
    /// There is no such backup; `notice` says so.
    Unknown { notice: String },
}

/// Plans the reversal of a backup: the same copy with the roles of source and
/// destination exchanged.
pub fn revert(catalog: &Catalog, id: u64) -> (outcome: Reversal)
    ensures
        match outcome {
            Reversal::Copy { source, dest } => {
                &&& catalog@.has_backup(id)
                &&& catalog@.names_pair(id, dest@, source@)
            },
            Reversal::Unknown { notice } => {
                &&& !catalog@.has_backup(id)
                &&& notice@ == not_found(id)
            },
        },
{
    match catalog.find_backup(id) {
        Some(backup) => {
            proof {
                let i = choose|i: int|
                    0 <= i < catalog@.backups.len() && catalog@.backups[i] == backup@;
                assert(catalog@.backups[i].id == id);
                assert(catalog@.names_pair(id, backup.from@, backup.to@));
            }
            Reversal::Copy { source: backup.to, dest: backup.from }
        },
        None => Reversal::Unknown { notice: not_found_line(id) },
    }
}

/// Begins the audit of a backup's files against their catalogued digests and
/// says what to do first. A backup without file records, or one that the
/// catalog does not hold, is done at once.
pub fn verify(catalog: &Catalog, id: u64) -> (begun: (Auditor, AuditAction))
    ensures
        (begun.0@, begun.1@) == AuditState::begin(catalog@.files_of(id)),
{
    Auditor::start(catalog.list_files(id))
}

/// The catalog after the records that an audit rewrote were written back, in
/// order.
pub open spec fn written_back(catalog: CatalogView, records: Seq<FileRecord>) -> CatalogView
    decreases records.len(),
{
    if records.len() == 0 {
        catalog
    } else {
        written_back(catalog, records.drop_last()).put_file(records.last())
    }
}

/// Writes the records that an audit rewrote back to the catalog and hands the
/// rest of the report on.
pub fn conclude_verify(catalog: &mut Catalog, report: VerifyReport) -> (rest: VerifyReport)
    ensures
        final(catalog)@ == written_back(old(catalog)@, report.rewritten.deep_view()),
        old(catalog)@.well_formed() ==> final(catalog)@.well_formed(),
        rest.seen == report.seen,
        rest.verified == report.verified,
        rest.copied == report.copied,
        rest.errors == report.errors,
        rest.rewritten@.len() == 0,
{
    let ghost records = report.rewritten.deep_view();
    let ghost items = report.rewritten@;
    let VerifyReport { seen, verified, copied, errors, rewritten } = report;
    proof {
        assert(records.take(0) =~= Seq::empty());
    }
    for record in it: rewritten
        invariant
            it.seq() == items,
            records == Seq::new(items.len(), |i: int| items[i]@),
            catalog@ == written_back(old(catalog)@, records.take(it.index() as int)),
            old(catalog)@.well_formed() ==> catalog@.well_formed(),
    {
        proof {
            assert(records.take(it.index() + 1).drop_last() =~= records.take(it.index() as int));
            assert(records.take(it.index() + 1).last() == record@);
        }
        catalog.put_file(record);
    }
    proof {
        assert(records.take(items.len() as int) =~= records);
    }
    VerifyReport { seen, verified, copied, errors, rewritten: Vec::new() }
}

/// The record of the backup of `source` at `dest`.
pub open spec fn backup_of(source: &str, dest: &str) -> BackupView {
    BackupView {
        id: id_of(source.spec_bytes(), dest.spec_bytes()),
        from: source@,
        to: dest@,
        compression: None,
    }
}

/// Records the backup of the tree at `source` to `dest` in the catalog, in
/// place of an earlier backup of the same pair, and gives its identifier.
///
/// `source` is the source root as the operator gave it; `dest` is the
/// destination path, which is the destination root extended by the source
/// root's own name.
pub fn record_backup(catalog: &mut Catalog, source: &str, dest: &str) -> (id: u64)
    ensures
        id == id_of(source.spec_bytes(), dest.spec_bytes()),
        final(catalog)@ == old(catalog)@.put_backup(backup_of(source, dest)),
        old(catalog)@.well_formed() ==> final(catalog)@.well_formed(),
{
    let id = backup_id(source, dest);
    catalog.put_backup(
        BackupEntry {
            id,
            from: String::from_str(source),
            to: String::from_str(dest),
            compression: None,
        },
    );
    id
}

/// Records a copied file in the catalog with the digest of `content`, in
/// place of an earlier record of the same pair of paths.
pub fn record_file(catalog: &mut Catalog, id: u64, from: &str, to: &str, content: &[u8])
    ensures
        final(catalog)@ == old(catalog)@.put_file(
            FileRecord { backup_id: id, from: from@, to: to@, sha256: digest_text(content@) },
        ),
        old(catalog)@.well_formed() ==> final(catalog)@.well_formed(),
{
    catalog.put_file(
        FileEntry {
            backup_id: id,
            from: String::from_str(from),
            to: String::from_str(to),
            sha256: file_digest(content),
        },
    );
}

} // verus!

//! What holds of the catalog's operations, whatever it held before.

use crate::catalog::{
    distinct_ids, distinct_pairs, file_of, not_backup, not_file_of, not_pair, BackupView,
    CatalogView, FileRecord,
};
use vstd::prelude::*;

verus! {

proof fn lemma_kept_ids_stay_distinct(backups: Seq<BackupView>, keep: spec_fn(BackupView) -> bool)
    requires
        distinct_ids(backups),
    ensures
        distinct_ids(backups.filter(keep)),
    decreases backups.len(),
{
    reveal(Seq::filter);
    if backups.len() > 0 {
        let rest = backups.drop_last();
        let last = backups.last();
        assert forall|i: int, j: int| 0 <= i < j < rest.len() implies (#[trigger] rest[i]).id != (
        #[trigger] rest[j]).id by {
            assert(rest[i] == backups[i] && rest[j] == backups[j]);
        }
        lemma_kept_ids_stay_distinct(rest, keep);
        let out = backups.filter(keep);
        if keep(last) {
            assert forall|i: int, j: int| 0 <= i < j < out.len() implies (#[trigger] out[i]).id != (
            #[trigger] out[j]).id by {
                if j < out.len() - 1 {
                    assert(out[i] == rest.filter(keep)[i] && out[j] == rest.filter(keep)[j]);
                } else {
                    assert(out[i] == rest.filter(keep)[i]);
                    assert(rest.filter(keep).contains(out[i]));
                    rest.lemma_filter_contains_rev(keep, out[i]);
                    let k = choose|k: int| 0 <= k < rest.len() && rest[k] == out[i];
                    assert(backups[k] == out[i]);
                    assert(backups[backups.len() - 1] == out[j]);
                }
            }
        }
    }
}

proof fn lemma_kept_pairs_stay_distinct(files: Seq<FileRecord>, keep: spec_fn(FileRecord) -> bool)
    requires
        distinct_pairs(files),
    ensures
        distinct_pairs(files.filter(keep)),
    decreases files.len(),
{
    reveal(Seq::filter);
    if files.len() > 0 {
        let rest = files.drop_last();
        let last = files.last();
        assert forall|i: int, j: int| 0 <= i < j < rest.len() implies !((#[trigger] rest[i]).from
            == (#[trigger] rest[j]).from && rest[i].to == rest[j].to) by {
            assert(rest[i] == files[i] && rest[j] == files[j]);
        }
        lemma_kept_pairs_stay_distinct(rest, keep);
        let out = files.filter(keep);
        if keep(last) {
            assert forall|i: int, j: int| 0 <= i < j < out.len() implies !((#[trigger] out[i]).from
                == (#[trigger] out[j]).from && out[i].to == out[j].to) by {
                if j < out.len() - 1 {
                    assert(out[i] == rest.filter(keep)[i] && out[j] == rest.filter(keep)[j]);
                } else {
                    assert(out[i] == rest.filter(keep)[i]);
                    assert(rest.filter(keep).contains(out[i]));
                    rest.lemma_filter_contains_rev(keep, out[i]);
                    let k = choose|k: int| 0 <= k < rest.len() && rest[k] == out[i];
                    assert(files[k] == out[i]);
                    assert(files[files.len() - 1] == out[j]);
                }
            }
        }
    }
}

proof fn lemma_kept_backups(backups: Seq<BackupView>, id: u64, other: u64)
    ensures
        forall|i: int|
            0 <= i < backups.filter(not_backup(id)).len() ==> (#[trigger] backups.filter(
                not_backup(id),
            )[i]).id != id,
        other != id ==> ((exists|i: int|
            0 <= i < backups.len() && (#[trigger] backups[i]).id == other) <==> (exists|i: int|
            0 <= i < backups.filter(not_backup(id)).len() && (#[trigger] backups.filter(
                not_backup(id),
            )[i]).id == other)),
{
    let kept = backups.filter(not_backup(id));
    #[allow(deprecated)]
    backups.filter_lemma(not_backup(id));
    if other != id {
        if exists|i: int| 0 <= i < backups.len() && (#[trigger] backups[i]).id == other {
            let i = choose|i: int| 0 <= i < backups.len() && (#[trigger] backups[i]).id == other;
            assert(not_backup(id)(backups[i]));
            assert(kept.contains(backups[i]));
            let j = choose|j: int| 0 <= j < kept.len() && kept[j] == backups[i];
            assert(kept[j].id == other);
        }
        if exists|i: int| 0 <= i < kept.len() && (#[trigger] kept[i]).id == other {
            let j = choose|j: int| 0 <= j < kept.len() && (#[trigger] kept[j]).id == other;
            assert(kept.contains(kept[j]));
            backups.lemma_filter_contains_rev(not_backup(id), kept[j]);
            let i = choose|i: int| 0 <= i < backups.len() && backups[i] == kept[j];
            assert(backups[i].id == other);
        }
    }
}

proof fn lemma_other_files_stay(files: Seq<FileRecord>, id: u64, other: u64)
    requires
        other != id,
    ensures
        files.filter(not_file_of(id)).filter(file_of(other)) == files.filter(file_of(other)),
    decreases files.len(),
{
    reveal(Seq::filter);
    if files.len() > 0 {
        lemma_other_files_stay(files.drop_last(), id, other);
        if not_file_of(id)(files.last()) {
            files.drop_last().filter(not_file_of(id)).lemma_filter_push(
                files.last(),
                file_of(other),
            );
        }
    }
}

proof fn lemma_own_files_go(files: Seq<FileRecord>, id: u64)
    ensures
        files.filter(not_file_of(id)).filter(file_of(id)).len() == 0,
    decreases files.len(),
{
    reveal(Seq::filter);
    if files.len() > 0 {
        lemma_own_files_go(files.drop_last(), id);
        if not_file_of(id)(files.last()) {
            files.drop_last().filter(not_file_of(id)).lemma_filter_push(files.last(), file_of(id));
        }
    }
}

/// After a backup is recorded, the catalog lists it, and lists it once.
///
/// The new record stands last; no other record bears its identifier; every
/// backup with another identifier is listed exactly if it was before; the file
/// records are untouched; and no two backups share an identifier, if none did
/// before.
pub proof fn lemma_recorded_backup_is_listed_once(catalog: CatalogView, backup: BackupView)
    ensures
        ({
            let after = catalog.put_backup(backup);
            &&& after.backups.len() >= 1
            &&& after.backups.last() == backup
            &&& after.has_backup(backup.id)
            &&& forall|i: int|
                0 <= i < after.backups.len() - 1 ==> (#[trigger] after.backups[i]).id != backup.id
            &&& forall|other: u64|
                other != backup.id ==> (after.has_backup(other) <==> catalog.has_backup(other))
            &&& after.files == catalog.files
            &&& catalog.well_formed() ==> after.well_formed()
        }),
{
    let after = catalog.put_backup(backup);
    let kept = catalog.backups.filter(not_backup(backup.id));
    lemma_kept_backups(catalog.backups, backup.id, backup.id);
    assert(after.backups[after.backups.len() - 1].id == backup.id);
    assert forall|other: u64| other != backup.id implies (after.has_backup(other)
        <==> catalog.has_backup(other)) by {
        lemma_kept_backups(catalog.backups, backup.id, other);
        if catalog.has_backup(other) {
            let j = choose|j: int| 0 <= j < kept.len() && (#[trigger] kept[j]).id == other;
            assert(after.backups[j].id == other);
        }
        if after.has_backup(other) {
            let j = choose|j: int|
                0 <= j < after.backups.len() && (#[trigger] after.backups[j]).id == other;
            assert(kept[j].id == other);
        }
    }
    if catalog.well_formed() {
        lemma_kept_ids_stay_distinct(catalog.backups, not_backup(backup.id));
        assert forall|i: int, j: int| 0 <= i < j < after.backups.len() implies (
        #[trigger] after.backups[i]).id != (#[trigger] after.backups[j]).id by {
            assert(after.backups[i] == kept[i]);
            if j < kept.len() {
                assert(after.backups[j] == kept[j]);
            }
        }
    }
}

/// The first backup recorded in an empty catalog is all that the catalog lists,
/// and deleting it leaves the catalog empty again.
pub proof fn lemma_first_backup_round_trip(backup: BackupView)
    ensures
        CatalogView::empty().put_backup(backup).backups == seq![backup],
        CatalogView::empty().put_backup(backup).delete_backup(backup.id) == CatalogView::empty(),
{
    reveal(Seq::filter);
    let none = Seq::<BackupView>::empty();
    assert(none.filter(not_backup(backup.id)) =~= none);
    let one = CatalogView::empty().put_backup(backup);
    assert(one.backups =~= seq![backup]);
    assert(one.backups.drop_last() =~= none);
    assert(one.backups.filter(not_backup(backup.id)) =~= none);
    let no_files = Seq::<FileRecord>::empty();
    assert(no_files.filter(not_file_of(backup.id)) =~= no_files);
}

/// After a backup is deleted, the catalog lists neither it nor any of its
/// files, and everything else is as it was.
///
/// Every backup with another identifier is listed exactly if it was before,
/// with the same file records in the same order; and the catalog stays free
/// of doubles if it was.
pub proof fn lemma_deleted_backup_is_gone(catalog: CatalogView, id: u64)
    ensures
        ({
            let after = catalog.delete_backup(id);
            &&& !after.has_backup(id)
            &&& after.files_of(id).len() == 0
            &&& forall|other: u64|
                other != id ==> (after.has_backup(other) <==> catalog.has_backup(other))
            &&& forall|other: u64| other != id ==> after.files_of(other) == catalog.files_of(other)
            &&& catalog.well_formed() ==> after.well_formed()
        }),
{
    let after = catalog.delete_backup(id);
    lemma_kept_backups(catalog.backups, id, id);
    assert forall|other: u64| other != id implies (after.has_backup(other) <==> catalog.has_backup(
        other,
    )) by {
        lemma_kept_backups(catalog.backups, id, other);
    }
    lemma_own_files_go(catalog.files, id);
    assert forall|other: u64| other != id implies after.files_of(other) == catalog.files_of(
        other,
    ) by {
        lemma_other_files_stay(catalog.files, id, other);
    }
    if catalog.well_formed() {
        lemma_kept_ids_stay_distinct(catalog.backups, not_backup(id));
        lemma_kept_pairs_stay_distinct(catalog.files, not_file_of(id));
    }
}

/// After a file is recorded, the catalog holds exactly one record for its
/// pair of paths, the new one, and the backups are untouched.
pub proof fn lemma_recorded_file_is_held_once(catalog: CatalogView, file: FileRecord)
    ensures
        ({
            let after = catalog.put_file(file);
            &&& after.files.len() >= 1
            &&& after.files.last() == file
            &&& forall|i: int|
                0 <= i < after.files.len() - 1 ==> !((#[trigger] after.files[i]).from == file.from
                    && after.files[i].to == file.to)
            &&& after.files_of(file.backup_id).len() >= 1
            &&& after.files_of(file.backup_id).last() == file
            &&& after.backups == catalog.backups
            &&& catalog.well_formed() ==> after.well_formed()
        }),
{
    let after = catalog.put_file(file);
    let keep = not_pair(file.from, file.to);
    let kept = catalog.files.filter(keep);
    #[allow(deprecated)]
    catalog.files.filter_lemma(keep);
    assert forall|i: int| 0 <= i < after.files.len() - 1 implies !((#[trigger] after.files[i]).from
        == file.from && after.files[i].to == file.to) by {
        assert(after.files[i] == kept[i]);
        assert(keep(kept[i]));
    }
    kept.lemma_filter_push(file, file_of(file.backup_id));
    if catalog.well_formed() {
        lemma_kept_pairs_stay_distinct(catalog.files, keep);
        assert forall|i: int, j: int| 0 <= i < j < after.files.len() implies !((
        #[trigger] after.files[i]).from == (#[trigger] after.files[j]).from && after.files[i].to
            == after.files[j].to) by {
            assert(after.files[i] == kept[i]);
            assert(keep(kept[i]));
            if j < kept.len() {
                assert(after.files[j] == kept[j]);
            }
        }
    }
}

/// Recording a backup and deleting it again leaves the list of backups as it
/// was, and in between the catalog names exactly the recorded source and
/// destination for it.
///
/// This holds of a catalog in which no two backups share an identifier and
/// which does not hold the backup's identifier beforehand.
pub proof fn lemma_backup_round_trip(catalog: CatalogView, backup: BackupView)
    requires
        catalog.well_formed(),
        !catalog.has_backup(backup.id),
    ensures
        ({
            let recorded = catalog.put_backup(backup);
            &&& recorded.backups == catalog.backups.push(backup)
            &&& recorded.names_pair(backup.id, backup.from, backup.to)
            &&& forall|from: Seq<char>, to: Seq<char>|
                recorded.names_pair(backup.id, from, to) ==> from == backup.from && to == backup.to
            &&& forall|to: Seq<char>| recorded.names_tree(backup.id, to) ==> to == backup.to
            &&& recorded.delete_backup(backup.id).backups == catalog.backups
        }),
{
    let recorded = catalog.put_backup(backup);
    lemma_unlisted_is_kept(catalog.backups, backup.id);
    assert(recorded.backups == catalog.backups.push(backup));
    assert(recorded.backups[recorded.backups.len() - 1] == backup);
    assert forall|from: Seq<char>, to: Seq<char>|
        recorded.names_pair(backup.id, from, to) implies from == backup.from && to
        == backup.to by {
        let i = choose|i: int|
            0 <= i < recorded.backups.len() && (#[trigger] recorded.backups[i]).id == backup.id
                && recorded.backups[i].from == from && recorded.backups[i].to == to;
        if i < catalog.backups.len() {
            assert(catalog.backups[i].id == backup.id);
        }
    }
    assert forall|to: Seq<char>| recorded.names_tree(backup.id, to) implies to == backup.to by {
        let i = choose|i: int|
            0 <= i < recorded.backups.len() && (#[trigger] recorded.backups[i]).id == backup.id
                && recorded.backups[i].to == to;
        if i < catalog.backups.len() {
            assert(catalog.backups[i].id == backup.id);
        }
    }
    catalog.backups.lemma_filter_push(backup, not_backup(backup.id));
}

proof fn lemma_unlisted_is_kept(backups: Seq<BackupView>, id: u64)
    requires
        forall|i: int| 0 <= i < backups.len() ==> (#[trigger] backups[i]).id != id,
    ensures
        backups.filter(not_backup(id)) == backups,
    decreases backups.len(),
{
    reveal(Seq::filter);
    if backups.len() > 0 {
        assert forall|i: int| 0 <= i < backups.drop_last().len() implies (
        #[trigger] backups.drop_last()[i]).id != id by {
            assert(backups.drop_last()[i] == backups[i]);
        }
        lemma_unlisted_is_kept(backups.drop_last(), id);
        assert(backups[backups.len() - 1].id != id);
        assert(backups.drop_last().push(backups.last()) =~= backups);
    }
}

} // verus!

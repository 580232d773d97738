//! Whole audits against an ideal disk, and what holds of every one of them.
//!
//! The ideal disk is a map from paths to contents. Reading a path gives its
//! content if the map holds it; copying one path over another succeeds exactly
//! if the first is held, and then the second holds the same content. Nothing
//! else ever changes the disk.

use crate::audit::{
    copied_in, intact, rewritten_in, verified_in, AuditActionView, AuditEventView, AuditPhase,
    AuditState, OutcomeView,
};
use crate::catalog::{file_of, not_pair, CatalogView, FileRecord};
use crate::commands::written_back;
use crate::digest::{digest_text, lemma_digest_agrees_with_itself};
use vstd::prelude::*;

verus! {

/// An ideal disk: the content of every file that exists, by path.
pub struct Disk {
    pub files: Map<Seq<char>, Seq<u8>>,
}

/// What an ideal copy reports when its source does not exist.
pub open spec fn no_source(path: Seq<char>) -> Seq<char> {
    "No such file: "@ + path
}

impl Disk {
    /// What reading `path` gives.
    pub open spec fn read(self, path: Seq<char>) -> Option<Seq<u8>> {
        if self.files.dom().contains(path) {
            Some(self.files[path])
        } else {
            None
        }
    }

    /// The disk after `content` was written at `path`.
    pub open spec fn write(self, path: Seq<char>, content: Seq<u8>) -> Disk {
        Disk { files: self.files.insert(path, content) }
    }

    /// What the disk does about a request of the audit: the disk afterwards
    /// and the report that goes back.
    pub open spec fn serve(self, action: AuditActionView) -> (Disk, AuditEventView) {
        match action {
            AuditActionView::Copy { from, to } => {
                if self.files.dom().contains(from) {
                    (self.write(to, self.files[from]), AuditEventView::Copied)
                } else {
                    (self, AuditEventView::CopyFailed { error: no_source(from) })
                }
            },
            AuditActionView::Read { path } => (self, AuditEventView::Content(self.read(path))),
            _ => (self, AuditEventView::Content(None)),
        }
    }

    /// How the audit of one record ends on this disk, and the disk afterwards.
    ///
    /// A file that can be read and has the catalogued digest is intact. Any
    /// other is repaired if its source exists: the source's content is written
    /// over it and the record takes the digest of that content. Where the
    /// source does not exist either, the copy fails and the disk stays as it
    /// is.
    pub open spec fn audit(self, record: FileRecord) -> (OutcomeView, Disk) {
        if intact(self.read(record.to), record.sha256) {
            (OutcomeView::Intact, self)
        } else if self.files.dom().contains(record.from) {
            (
                OutcomeView::Repaired(
                    FileRecord { sha256: digest_text(self.files[record.from]), ..record },
                ),
                self.write(record.to, self.files[record.from]),
            )
        } else {
            (OutcomeView::CopyFailed { error: no_source(record.from) }, self)
        }
    }

    /// How the audits of a list of records end on this disk, one after the
    /// other, and the disk afterwards.
    pub open spec fn audit_each(self, records: Seq<FileRecord>) -> (Seq<OutcomeView>, Disk)
        decreases records.len(),
    {
        if records.len() == 0 {
            (Seq::empty(), self)
        } else {
            let (results, disk) = self.audit_each(records.drop_last());
            let (result, after) = disk.audit(records.last());
            (results.push(result), after)
        }
    }
}

/// The audit machine driven by an ideal disk: each request is served by the
/// disk and the report fed back, for at most `steps` requests or until the
/// machine has no further request.
pub open spec fn play(state: AuditState, action: AuditActionView, disk: Disk, steps: nat) -> (
    AuditState,
    Disk,
)
    decreases steps,
{
    if steps == 0 || action is Done || action is Refused {
        (state, disk)
    } else {
        let (served, report) = disk.serve(action);
        let (next, request) = state.step(report);
        play(next, request, served, (steps - 1) as nat)
    }
}

/// The state in which the audit machine stands between two records, after it
/// has dealt with the first of its records with the given results, and the
/// request it has made.
pub open spec fn standing(records: Seq<FileRecord>, results: Seq<OutcomeView>) -> (
    AuditState,
    AuditActionView,
) {
    if results.len() < records.len() {
        (
            AuditState { records, results, phase: AuditPhase::Examining },
            AuditActionView::Read { path: records[results.len() as int].to },
        )
    } else {
        (AuditState { records, results, phase: AuditPhase::Done }, AuditActionView::Done)
    }
}

proof fn lemma_one_record(records: Seq<FileRecord>, results: Seq<OutcomeView>, disk: Disk, steps: nat)
    requires
        results.len() < records.len(),
        steps >= 3,
    ensures
        ({
            let (state, action) = standing(records, results);
            let (result, after) = disk.audit(records[results.len() as int]);
            let (next, request) = standing(records, results.push(result));
            let whole = play(state, action, disk, steps);
            ||| whole == play(next, request, after, (steps - 1) as nat)
            ||| whole == play(next, request, after, (steps - 2) as nat)
            ||| whole == play(next, request, after, (steps - 3) as nat)
        }),
{
    let (state, action) = standing(records, results);
    let record = records[results.len() as int];
    let (result, after) = disk.audit(record);
    let (next, request) = standing(records, results.push(result));
    let (served1, report1) = disk.serve(action);
    let (state1, action1) = state.step(report1);
    assert(play(state, action, disk, steps) == play(state1, action1, served1, (steps - 1) as nat));
    if intact(disk.read(record.to), record.sha256) {
        assert(state1 == next && action1 == request && served1 == after);
        assert(play(state, action, disk, steps) == play(next, request, after, (steps - 1) as nat));
    } else {
        let (served2, report2) = served1.serve(action1);
        let (state2, action2) = state1.step(report2);
        assert(play(state1, action1, served1, (steps - 1) as nat) == play(
            state2,
            action2,
            served2,
            (steps - 2) as nat,
        ));
        if disk.files.dom().contains(record.from) {
            let (served3, report3) = served2.serve(action2);
            let (state3, action3) = state2.step(report3);
            assert(play(state2, action2, served2, (steps - 2) as nat) == play(
                state3,
                action3,
                served3,
                (steps - 3) as nat,
            ));
            assert(served2.read(record.to) == Some(disk.files[record.from]));
            assert(state3 == next && action3 == request && served3 == after);
            assert(play(state, action, disk, steps) == play(
                next,
                request,
                after,
                (steps - 3) as nat,
            ));
        } else {
            assert(state2 == next && action2 == request && served2 == after);
            assert(play(state, action, disk, steps) == play(
                next,
                request,
                after,
                (steps - 2) as nat,
            ));
        }
    }
}

proof fn lemma_play_from(
    records: Seq<FileRecord>,
    done: int,
    disk: Disk,
    steps: nat,
)
    requires
        0 <= done <= records.len(),
        steps >= 3 * (records.len() - done),
    ensures
        ({
            let (results, reached) = disk.audit_each(records.take(done));
            let (state, action) = standing(records, results);
            let (all, end) = disk.audit_each(records);
            &&& results.len() == done
            &&& all.len() == records.len()
            &&& play(state, action, reached, steps) == (
                AuditState { records, results: all, phase: AuditPhase::Done },
                end,
            )
        }),
    decreases records.len() - done,
{
    lemma_audit_each_len(disk, records.take(done));
    lemma_audit_each_len(disk, records);
    let (results, reached) = disk.audit_each(records.take(done));
    let (state, action) = standing(records, results);
    if done == records.len() {
        assert(records.take(done) =~= records);
    } else {
        lemma_one_record(records, results, reached, steps);
        let (result, after) = reached.audit(records[done]);
        let (next, request) = standing(records, results.push(result));
        assert(records.take(done + 1).drop_last() =~= records.take(done));
        assert(records.take(done + 1).last() == records[done]);
        assert(disk.audit_each(records.take(done + 1)) == (results.push(result), after));
        lemma_play_from(records, done + 1, disk, (steps - 1) as nat);
        lemma_play_from(records, done + 1, disk, (steps - 2) as nat);
        lemma_play_from(records, done + 1, disk, (steps - 3) as nat);
    }
}

/// The audits of a list of records end with one result per record.
pub proof fn lemma_audit_each_len(disk: Disk, records: Seq<FileRecord>)
    ensures
        disk.audit_each(records).0.len() == records.len(),
    decreases records.len(),
{
    if records.len() > 0 {
        lemma_audit_each_len(disk, records.drop_last());
    }
}

/// Driven by an ideal disk, the audit machine deals with every record as
/// [`Disk::audit`] says, one after the other, and then stops; three requests
/// per record are enough.
pub proof fn lemma_machine_follows_model(records: Seq<FileRecord>, disk: Disk, steps: nat)
    requires
        steps >= 3 * records.len(),
    ensures
        ({
            let (state, action) = AuditState::begin(records);
            let (results, end) = disk.audit_each(records);
            play(state, action, disk, steps) == (
                AuditState { records, results, phase: AuditPhase::Done },
                end,
            )
        }),
{
    assert(records.take(0) =~= Seq::<FileRecord>::empty());
    lemma_play_from(records, 0, disk, steps);
}

/// An ideal copy leaves the destination with the content of the source, and
/// so with its digest.
pub proof fn lemma_copy_keeps_digest(disk: Disk, from: Seq<char>, to: Seq<char>)
    requires
        disk.files.dom().contains(from),
    ensures
        ({
            let (after, report) = disk.serve(AuditActionView::Copy { from, to });
            &&& report == AuditEventView::Copied
            &&& after.read(to) == disk.read(from)
            &&& digest_text(after.files[to]) == digest_text(disk.files[from])
        }),
{
}

/// The destinations of the records are distinct, and no source is a
/// destination.
pub open spec fn apart(records: Seq<FileRecord>) -> bool {
    &&& forall|i: int, j: int|
        0 <= i < j < records.len() ==> (#[trigger] records[i]).to != (#[trigger] records[j]).to
    &&& forall|i: int, j: int|
        0 <= i < records.len() && 0 <= j < records.len() ==> (#[trigger] records[i]).from != (
        #[trigger] records[j]).to
}

/// The record as it stands in the catalog after its audit: rewritten if the
/// file was repaired, unchanged otherwise.
pub open spec fn updated(record: FileRecord, result: OutcomeView) -> FileRecord {
    match result {
        OutcomeView::Repaired(fresh) => fresh,
        _ => record,
    }
}

/// Nothing is left to do for a record: its file is intact, or it is not and
/// there is no source to repair it from.
pub open spec fn settled(disk: Disk, record: FileRecord) -> bool {
    intact(disk.read(record.to), record.sha256) || !disk.files.dom().contains(record.from)
}

/// No repair has overwritten what an earlier record rests on: the file that
/// a repair wrote is not the destination of a record audited before it, nor
/// the missing source of one whose copy had failed.
pub open spec fn undisturbed(records: Seq<FileRecord>, results: Seq<OutcomeView>) -> bool {
    forall|i: int, j: int|
        0 <= i < j < records.len() && (#[trigger] results[j]) is Repaired ==> {
            &&& records[j].to != (#[trigger] records[i]).to
            &&& results[i] is CopyFailed ==> records[j].to != records[i].from
        }
}

/// The file of the record at `at` is no other record's destination, and it
/// is not its own source.
pub open spec fn stands_alone(records: Seq<FileRecord>, at: int) -> bool {
    &&& records[at].from != records[at].to
    &&& forall|i: int|
        0 <= i < records.len() && i != at ==> (#[trigger] records[i]).to != records[at].to
}

/// Records that lie apart are safe from each other's repairs, whatever the
/// audits find.
pub proof fn lemma_apart_records_are_safe(
    records: Seq<FileRecord>,
    results: Seq<OutcomeView>,
    at: int,
)
    requires
        apart(records),
    ensures
        undisturbed(records, results),
        0 <= at < records.len() ==> stands_alone(records, at),
{
    if 0 <= at < records.len() {
        assert forall|i: int| 0 <= i < records.len() && i != at implies (#[trigger] records[i]).to
            != records[at].to by {
            if i < at {
                assert(records[i].to != records[at].to);
            } else {
                assert(records[at].to != records[i].to);
            }
        }
    }
}

/// The state in which an audit has left a record holds on this disk: the
/// file is intact, or, where the copy had failed, there is still no source.
spec fn kept_well(disk: Disk, record: FileRecord, result: OutcomeView) -> bool {
    if result is CopyFailed {
        !disk.files.dom().contains(record.from)
    } else {
        intact(disk.read(record.to), record.sha256)
    }
}

/// `record` is one of `records` as it stands after the audits `results`.
pub open spec fn is_updated(
    records: Seq<FileRecord>,
    results: Seq<OutcomeView>,
    record: FileRecord,
    at: int,
) -> bool {
    0 <= at < records.len() && record == updated(records[at], results[at])
}

/// `record` is some one of `records` as it stands after the audits `results`.
pub open spec fn is_drawn(
    records: Seq<FileRecord>,
    results: Seq<OutcomeView>,
    record: FileRecord,
) -> bool {
    exists|i: int| is_updated(records, results, record, i)
}

/// Every record of `again` is one of `records` as it stands after the audits
/// `results`, in whatever order.
pub open spec fn drawn_from(
    again: Seq<FileRecord>,
    records: Seq<FileRecord>,
    results: Seq<OutcomeView>,
) -> bool {
    forall|j: int| 0 <= j < again.len() ==> is_drawn(records, results, #[trigger] again[j])
}

proof fn lemma_paths_stay(disk: Disk, records: Seq<FileRecord>, at: int)
    requires
        0 <= at < records.len(),
    ensures
        disk.audit_each(records).0.len() == records.len(),
        updated(records[at], disk.audit_each(records).0[at]).from == records[at].from,
        updated(records[at], disk.audit_each(records).0[at]).to == records[at].to,
    decreases records.len(),
{
    lemma_audit_each_len(disk, records);
    lemma_audit_each_len(disk, records.drop_last());
    if at < records.len() - 1 {
        lemma_paths_stay(disk, records.drop_last(), at);
        assert(records.drop_last()[at] == records[at]);
    }
}

proof fn lemma_all_settled(disk: Disk, records: Seq<FileRecord>)
    requires
        undisturbed(records, disk.audit_each(records).0),
    ensures
        disk.audit_each(records).0.len() == records.len(),
        forall|i: int|
            0 <= i < records.len() ==> kept_well(
                disk.audit_each(records).1,
                updated(#[trigger] records[i], disk.audit_each(records).0[i]),
                disk.audit_each(records).0[i],
            ),
    decreases records.len(),
{
    lemma_audit_each_len(disk, records);
    if records.len() > 0 {
        let rest = records.drop_last();
        let last = records.last();
        let at = records.len() - 1;
        lemma_audit_each_len(disk, rest);
        let (before, mid) = disk.audit_each(rest);
        let (result, end) = mid.audit(last);
        let (results, reached) = disk.audit_each(records);
        assert(results == before.push(result) && reached == end);
        assert(undisturbed(rest, before)) by {
            assert forall|i: int, j: int|
                0 <= i < j < rest.len() && (#[trigger] before[j]) is Repaired implies {
                &&& rest[j].to != (#[trigger] rest[i]).to
                &&& before[i] is CopyFailed ==> rest[j].to != rest[i].from
            } by {
                assert(results[j] == before[j] && results[i] == before[i]);
                assert(rest[i] == records[i] && rest[j] == records[j]);
            }
        }
        lemma_all_settled(disk, rest);
        assert forall|i: int| 0 <= i < records.len() implies kept_well(
            reached,
            updated(#[trigger] records[i], results[i]),
            results[i],
        ) by {
            if i < at {
                lemma_paths_stay(disk, rest, i);
                assert(rest[i] == records[i]);
                assert(results[i] == before[i]);
                let record = updated(rest[i], before[i]);
                assert(kept_well(mid, record, before[i]));
                if result is Repaired {
                    assert(results[at] is Repaired);
                    assert(records[at].to != records[i].to);
                    assert(end.read(record.to) == mid.read(record.to));
                    if before[i] is CopyFailed {
                        assert(records[at].to != records[i].from);
                    }
                }
            } else {
                assert(results[i] == result);
                if result is Repaired {
                    lemma_digest_agrees_with_itself(digest_text(mid.files[last.from]));
                }
            }
        }
    }
}

proof fn lemma_settled_stay(disk: Disk, records: Seq<FileRecord>)
    requires
        forall|i: int| 0 <= i < records.len() ==> settled(disk, #[trigger] records[i]),
    ensures
        disk.audit_each(records).1 == disk,
        copied_in(disk.audit_each(records).0) == 0,
    decreases records.len(),
{
    if records.len() > 0 {
        let rest = records.drop_last();
        assert forall|i: int| 0 <= i < rest.len() implies settled(disk, #[trigger] rest[i]) by {
            assert(rest[i] == records[i]);
        }
        lemma_settled_stay(disk, rest);
        assert(settled(disk, records[records.len() - 1]));
        let (before, mid) = disk.audit_each(rest);
        let (result, end) = mid.audit(records.last());
        assert(disk.audit_each(records).0.drop_last() =~= before);
    }
}

/// A second audit right after the first copies nothing.
///
/// Let the records be audited on a disk, and let every repaired record be
/// rewritten in the catalog. If the catalog's records are then audited again
/// on the disk as the first audit left it, in whatever order the catalog
/// lists them, no file is copied and the disk stays as it is. This holds
/// where no repair of the first audit has overwritten the destination of a
/// record audited before it, nor the missing source of one whose copy had
/// failed; records that lie apart are such.
pub proof fn lemma_second_audit_copies_nothing(
    disk: Disk,
    records: Seq<FileRecord>,
    again: Seq<FileRecord>,
)
    requires
        undisturbed(records, disk.audit_each(records).0),
        drawn_from(again, records, disk.audit_each(records).0),
    ensures
        ({
            let (first, after) = disk.audit_each(records);
            let (second, end) = after.audit_each(again);
            &&& copied_in(second) == 0
            &&& end == after
        }),
{
    lemma_all_settled(disk, records);
    let (first, after) = disk.audit_each(records);
    assert forall|j: int| 0 <= j < again.len() implies settled(after, #[trigger] again[j]) by {
        assert(is_drawn(records, first, again[j]));
        let i = choose|i: int| is_updated(records, first, again[j], i);
        assert(kept_well(after, updated(records[i], first[i]), first[i]));
    }
    lemma_settled_stay(after, again);
}

proof fn lemma_tampered_prefix(
    disk: Disk,
    records: Seq<FileRecord>,
    at: int,
    damaged: Seq<u8>,
    upto: int,
)
    requires
        0 <= at < records.len(),
        stands_alone(records, at),
        0 <= upto <= records.len(),
        forall|i: int|
            0 <= i < records.len() ==> intact(
                disk.read((#[trigger] records[i]).to),
                records[i].sha256,
            ),
        disk.files.dom().contains(records[at].from),
        !intact(Some(damaged), records[at].sha256),
    ensures
        ({
            let hurt = disk.write(records[at].to, damaged);
            let (results, end) = hurt.audit_each(records.take(upto));
            &&& results.len() == upto
            &&& forall|i: int| 0 <= i < upto && i != at ==> #[trigger] results[i] is Intact
            &&& verified_in(results) == upto
            &&& upto <= at ==> end == hurt && copied_in(results) == 0
            &&& upto > at ==> {
                &&& end == disk.write(records[at].to, disk.files[records[at].from])
                &&& copied_in(results) == 1
                &&& results[at] == OutcomeView::Repaired(
                    FileRecord {
                        sha256: digest_text(disk.files[records[at].from]),
                        ..records[at]
                    },
                )
            }
        }),
    decreases upto,
{
    let hurt = disk.write(records[at].to, damaged);
    let healed = disk.write(records[at].to, disk.files[records[at].from]);
    if upto > 0 {
        lemma_tampered_prefix(disk, records, at, damaged, upto - 1);
        let m = upto - 1;
        let record = records[m];
        assert(records.take(upto).drop_last() =~= records.take(m));
        assert(records.take(upto).last() == record);
        let (before, mid) = hurt.audit_each(records.take(m));
        let (result, end) = mid.audit(record);
        let (results, reached) = hurt.audit_each(records.take(upto));
        assert(results == before.push(result) && reached == end);
        assert(results.drop_last() =~= before);
        assert(intact(disk.read(record.to), record.sha256));
        if m < at {
            assert(records[m].to != records[at].to);
            assert(mid.read(record.to) == disk.read(record.to));
        } else if m == at {
            assert(records[at].from != records[at].to);
            assert(mid.read(record.to) == Some(damaged));
            assert(mid.files.dom().contains(record.from));
            assert(mid.files[record.from] == disk.files[record.from]);
            assert(end.files =~= healed.files);
        } else {
            assert(records[m].to != records[at].to);
            assert(mid.read(record.to) == disk.read(record.to));
        }
        assert forall|i: int| 0 <= i < upto && i != at implies #[trigger] results[i] is Intact by {
            if i < m {
                assert(results[i] == before[i]);
            }
        }
        if m > at {
            assert(results[at] == before[at]);
        }
    } else {
        assert(records.take(0) =~= Seq::<FileRecord>::empty());
    }
}

/// Damage to one destination file is found and undone, and nothing else is
/// touched.
///
/// Take a disk on which every destination file has its catalogued digest,
/// and overwrite one of these files with content whose digest does not agree
/// with the catalogued one. If the file's source exists, the audit repairs
/// exactly this file: it is the only one copied, it ends with the content,
/// and so the digest, of its source, every other file is found intact, every
/// record counts as verified, and the disk is otherwise as it was. This holds
/// where the damaged file is no other record's destination and is not its own
/// source.
pub proof fn lemma_tampering_is_repaired(
    disk: Disk,
    records: Seq<FileRecord>,
    at: int,
    damaged: Seq<u8>,
)
    requires
        0 <= at < records.len(),
        stands_alone(records, at),
        forall|i: int|
            0 <= i < records.len() ==> intact(
                disk.read((#[trigger] records[i]).to),
                records[i].sha256,
            ),
        disk.files.dom().contains(records[at].from),
        !intact(Some(damaged), records[at].sha256),
    ensures
        ({
            let hurt = disk.write(records[at].to, damaged);
            let (results, end) = hurt.audit_each(records);
            &&& results.len() == records.len()
            &&& copied_in(results) == 1
            &&& verified_in(results) == records.len()
            &&& results[at] == OutcomeView::Repaired(
                FileRecord { sha256: digest_text(disk.files[records[at].from]), ..records[at] },
            )
            &&& forall|i: int| 0 <= i < records.len() && i != at ==> #[trigger] results[i] is Intact
            &&& end == disk.write(records[at].to, disk.files[records[at].from])
            &&& end.read(records[at].to) == disk.read(records[at].from)
            &&& digest_text(end.files[records[at].to]) == digest_text(disk.files[records[at].from])
        }),
{
    lemma_tampered_prefix(disk, records, at, damaged, records.len() as int);
    assert(records.take(records.len() as int) =~= records);
}

proof fn lemma_rewritten_are_repaired(results: Seq<OutcomeView>)
    ensures
        forall|k: int|
            0 <= k < rewritten_in(results).len() ==> exists|i: int|
                0 <= i < results.len() && #[trigger] results[i] == OutcomeView::Repaired(
                    #[trigger] rewritten_in(results)[k],
                ),
        forall|i: int|
            0 <= i < results.len() && (#[trigger] results[i]) is Repaired ==> rewritten_in(
                results,
            ).contains(results[i]->Repaired_0),
    decreases results.len(),
{
    if results.len() > 0 {
        let rest = results.drop_last();
        lemma_rewritten_are_repaired(rest);
        let all = rewritten_in(results);
        let before = rewritten_in(rest);
        assert forall|k: int| 0 <= k < all.len() implies exists|i: int|
            0 <= i < results.len() && #[trigger] results[i] == OutcomeView::Repaired(
                #[trigger] all[k],
            ) by {
            if k < before.len() {
                assert(all[k] == before[k]);
                let i = choose|i: int|
                    0 <= i < rest.len() && #[trigger] rest[i] == OutcomeView::Repaired(before[k]);
                assert(results[i] == rest[i]);
            } else {
                assert(results[results.len() - 1] == OutcomeView::Repaired(all[k]));
            }
        }
        assert forall|i: int|
            0 <= i < results.len() && (#[trigger] results[i]) is Repaired implies all.contains(
            results[i]->Repaired_0,
        ) by {
            if i < rest.len() {
                assert(rest[i] == results[i]);
                let k = choose|k: int|
                    0 <= k < before.len() && before[k] == rest[i]->Repaired_0;
                assert(all[k] == before[k]);
            } else {
                assert(all[all.len() - 1] == results[i]->Repaired_0);
            }
        }
    }
}

/// What `kept` holds is either one of the records written back or one of the
/// catalog's own that shares its pair of paths with none of them.
spec fn accounted_for(kept: FileRecord, catalog: CatalogView, written: Seq<FileRecord>) -> bool {
    written.contains(kept) || (catalog.files.contains(kept) && forall|k: int|
        0 <= k < written.len() ==> !((#[trigger] written[k]).from == kept.from && written[k].to
            == kept.to))
}

proof fn lemma_written_back_accounts(catalog: CatalogView, written: Seq<FileRecord>)
    ensures
        forall|j: int|
            0 <= j < written_back(catalog, written).files.len() ==> accounted_for(
                #[trigger] written_back(catalog, written).files[j],
                catalog,
                written,
            ),
    decreases written.len(),
{
    let after = written_back(catalog, written);
    if written.len() == 0 {
        assert forall|j: int| 0 <= j < after.files.len() implies accounted_for(
            #[trigger] after.files[j],
            catalog,
            written,
        ) by {
            assert(catalog.files.contains(catalog.files[j]));
        }
    } else {
        let rest = written.drop_last();
        let last = written.last();
        lemma_written_back_accounts(catalog, rest);
        let before = written_back(catalog, rest);
        let keep = not_pair(last.from, last.to);
        let kept = before.files.filter(keep);
        assert(after.files == kept.push(last));
        assert forall|j: int| 0 <= j < after.files.len() implies accounted_for(
            #[trigger] after.files[j],
            catalog,
            written,
        ) by {
            let file = after.files[j];
            if j < kept.len() {
                assert(file == kept[j]);
                assert(kept.contains(file));
                before.files.lemma_filter_contains_rev(keep, file);
                before.files.lemma_filter_pred(keep, j);
                assert(keep(file));
                let at = choose|at: int| 0 <= at < before.files.len() && before.files[at] == file;
                assert(accounted_for(before.files[at], catalog, rest));
                if rest.contains(file) {
                    let k = choose|k: int| 0 <= k < rest.len() && rest[k] == file;
                    assert(written[k] == file);
                } else {
                    assert forall|k: int| 0 <= k < written.len() implies !((
                    #[trigger] written[k]).from == file.from && written[k].to == file.to) by {
                        if k < rest.len() {
                            assert(written[k] == rest[k]);
                        }
                    }
                }
            } else {
                assert(written[written.len() - 1] == file);
            }
        }
    }
}

/// Between two audits the catalog holds, for the backup, exactly the records
/// as the first audit left them.
///
/// Let the file records of a backup be audited, and let the records that the
/// audit rewrote be written back to the catalog. Then every record that the
/// catalog lists for the backup afterwards is one of the audited records as
/// it stands after its audit: rewritten if its file was repaired, unchanged
/// otherwise.
pub proof fn lemma_catalog_follows_audit(catalog: CatalogView, id: u64, disk: Disk)
    ensures
        ({
            let records = catalog.files_of(id);
            let results = disk.audit_each(records).0;
            drawn_from(
                written_back(catalog, rewritten_in(results)).files_of(id),
                records,
                results,
            )
        }),
{
    let records = catalog.files_of(id);
    let results = disk.audit_each(records).0;
    let written = rewritten_in(results);
    let after = written_back(catalog, written);
    let again = after.files_of(id);
    lemma_audit_each_len(disk, records);
    lemma_rewritten_are_repaired(results);
    lemma_written_back_accounts(catalog, written);
    assert forall|j: int| 0 <= j < again.len() implies is_drawn(
        records,
        results,
        #[trigger] again[j],
    ) by {
        let file = again[j];
        assert(again.contains(file));
        after.files.lemma_filter_contains_rev(file_of(id), file);
        after.files.lemma_filter_pred(file_of(id), j);
        assert(file.backup_id == id);
        let at = choose|at: int| 0 <= at < after.files.len() && after.files[at] == file;
        assert(accounted_for(after.files[at], catalog, written));
        if written.contains(file) {
            let k = choose|k: int| 0 <= k < written.len() && written[k] == file;
            let i = choose|i: int|
                0 <= i < results.len() && #[trigger] results[i] == OutcomeView::Repaired(
                    written[k],
                );
            assert(is_updated(records, results, file, i));
        } else {
            let c = choose|c: int| 0 <= c < catalog.files.len() && catalog.files[c] == file;
            assert(file_of(id)(catalog.files[c]));
            catalog.files.lemma_filter_contains(file_of(id), c);
            let i = choose|i: int| 0 <= i < records.len() && records[i] == file;
            if results[i] is Repaired {
                lemma_paths_stay(disk, records, i);
                let fresh = results[i]->Repaired_0;
                let k = choose|k: int| 0 <= k < written.len() && written[k] == fresh;
                assert(written[k].from == file.from && written[k].to == file.to);
            }
            assert(is_updated(records, results, file, i));
        }
    }
}

/// What the audit machine arrives at when an ideal disk serves it from the
/// first record to the last: its final state and the disk it leaves.
pub open spec fn audited(records: Seq<FileRecord>, disk: Disk) -> (AuditState, Disk) {
    let (state, action) = AuditState::begin(records);
    play(state, action, disk, 3 * records.len())
}

/// Verifying a backup twice in a row copies nothing the second time.
///
/// Let the audit machine go through the file records of a backup on a disk,
/// and let the records that it rewrote be written back to the catalog. If the
/// machine then goes through the records that the catalog lists for the
/// backup, on the disk as the first run left it, it copies no file and leaves
/// the disk as it is. This holds where no repair of the first run has
/// overwritten the destination of a record audited before it, nor the missing
/// source of one whose copy had failed; a backup whose records lie apart is
/// such.
pub proof fn lemma_verified_backup_stays_verified(catalog: CatalogView, id: u64, disk: Disk)
    requires
        undisturbed(
            catalog.files_of(id),
            audited(catalog.files_of(id), disk).0.results,
        ),
    ensures
        ({
            let (first, after) = audited(catalog.files_of(id), disk);
            let listed = written_back(catalog, rewritten_in(first.results)).files_of(id);
            let (second, end) = audited(listed, after);
            &&& first.phase == AuditPhase::Done
            &&& second.phase == AuditPhase::Done
            &&& second.results.len() == listed.len()
            &&& copied_in(second.results) == 0
            &&& end == after
        }),
{
    let records = catalog.files_of(id);
    lemma_machine_follows_model(records, disk, 3 * records.len());
    let (first, after) = disk.audit_each(records);
    let listed = written_back(catalog, rewritten_in(first)).files_of(id);
    lemma_machine_follows_model(listed, after, 3 * listed.len());
    lemma_audit_each_len(after, listed);
    lemma_catalog_follows_audit(catalog, id, disk);
    lemma_second_audit_copies_nothing(disk, records, listed);
}

/// Damage to one destination file is found and undone by the audit machine.
///
/// Take a disk on which every destination file of a backup has its catalogued
/// digest, and overwrite one of these files with content whose digest does
/// not agree with the catalogued one. If the file's source exists, the
/// machine, going through the records on the damaged disk, copies exactly one
/// file, leaves the damaged file with the content and so with the digest of
/// its source, counts every record as verified, and leaves the disk otherwise
/// as it was before the damage. This holds where the damaged file is no other
/// record's destination and is not its own source.
pub proof fn lemma_machine_repairs_tampering(
    disk: Disk,
    records: Seq<FileRecord>,
    at: int,
    damaged: Seq<u8>,
)
    requires
        0 <= at < records.len(),
        stands_alone(records, at),
        forall|i: int|
            0 <= i < records.len() ==> intact(
                disk.read((#[trigger] records[i]).to),
                records[i].sha256,
            ),
        disk.files.dom().contains(records[at].from),
        !intact(Some(damaged), records[at].sha256),
    ensures
        ({
            let (end, left) = audited(records, disk.write(records[at].to, damaged));
            &&& end.phase == AuditPhase::Done
            &&& end.results.len() == records.len()
            &&& copied_in(end.results) == 1
            &&& verified_in(end.results) == records.len()
            &&& end.results[at] is Repaired
            &&& left == disk.write(records[at].to, disk.files[records[at].from])
            &&& digest_text(left.files[records[at].to]) == digest_text(
                disk.files[records[at].from],
            )
        }),
{
    let hurt = disk.write(records[at].to, damaged);
    lemma_machine_follows_model(records, hurt, 3 * records.len());
    lemma_tampering_is_repaired(disk, records, at, damaged);
}

} // verus!

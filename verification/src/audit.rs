//! Auditing the files of a backup against their catalogued digests.
//!
//! The audit is a state machine over the file records of one backup, taken in
//! order. Its caller reads files and copies them; the machine decides. For
//! each record the destination file is read and its digest compared with the
//! catalogued one. A file that cannot be read or whose digest differs is
//! repaired: the source is copied over it, the copy is read back, and the
//! record is rewritten with the digest of what now stands there. A failure
//! with one file is noted and the audit goes on with the next.

use crate::catalog::{FileEntry, FileRecord};
use crate::digest::{digest_text, digests_agree, file_digest, same_digest};
use vstd::prelude::*;
use vstd::string::StringExecFns;

verus! {

/// What the caller reports to the audit.
#[derive(Debug)]
pub enum AuditEvent {
    /// What was read from the file that the audit asked for: its whole
    /// content, or nothing if it could not be read.
    Content(Option<Vec<u8>>),
    /// The copy that the audit asked for was made.
    Copied,
    /// The copy that the audit asked for failed; `error` says why.
    CopyFailed { error: String },
}

/// A report to the audit as a mathematical value.
pub enum AuditEventView {
    Content(Option<Seq<u8>>),
    Copied,
    CopyFailed { error: Seq<char> },
}

impl View for AuditEvent {
    type V = AuditEventView;

    open spec fn view(&self) -> AuditEventView {
        match self {
            AuditEvent::Content(content) => AuditEventView::Content(
                match content {
                    Some(bytes) => Some(bytes@),
                    None => None,
                },
            ),
            AuditEvent::Copied => AuditEventView::Copied,
            AuditEvent::CopyFailed { error } => AuditEventView::CopyFailed { error: error@ },
        }
    }
}

/// What the audit asks of its caller.
#[derive(Debug)]
pub enum AuditAction {
    /// Read this file and report its content.
    Read { path: String },
    /// Copy the first file over the second and report how it went.
    Copy { from: String, to: String },
    /// Every record has been dealt with.
    Done,
    /// The report does not fit the state of the audit. Nothing has changed.
    Refused,
}

/// A request of the audit as a mathematical value.
pub enum AuditActionView {
    Read { path: Seq<char> },
    Copy { from: Seq<char>, to: Seq<char> },
    Done,
    Refused,
}

impl View for AuditAction {
    type V = AuditActionView;

    open spec fn view(&self) -> AuditActionView {
        match self {
            AuditAction::Read { path } => AuditActionView::Read { path: path@ },
            AuditAction::Copy { from, to } => AuditActionView::Copy { from: from@, to: to@ },
            AuditAction::Done => AuditActionView::Done,
            AuditAction::Refused => AuditActionView::Refused,
        }
    }
}

/// How the audit of one file ended.
#[derive(Debug)]
pub enum Outcome {
    /// The destination file has the catalogued digest.
    Intact,
    /// The destination file was missing or differed; the source was copied
    /// over it. The record is given with the digest of what stands there now.
    Repaired(FileEntry),
    /// The destination file was missing or differed, and the source could not
    /// be copied over it.
    CopyFailed { error: String },
    /// The source was copied over the destination file at `path`, but the
    /// copy could not be read back.
    Unconfirmed { path: String },
}

/// The end of a file's audit as a mathematical value.
pub enum OutcomeView {
    Intact,
    Repaired(FileRecord),
    CopyFailed { error: Seq<char> },
    Unconfirmed { path: Seq<char> },
}

impl View for Outcome {
    type V = OutcomeView;

    open spec fn view(&self) -> OutcomeView {
        match self {
            Outcome::Intact => OutcomeView::Intact,
            Outcome::Repaired(record) => OutcomeView::Repaired(record@),
            Outcome::CopyFailed { error } => OutcomeView::CopyFailed { error: error@ },
            Outcome::Unconfirmed { path } => OutcomeView::Unconfirmed { path: path@ },
        }
    }
}

impl DeepView for Outcome {
    type V = OutcomeView;

    open spec fn deep_view(&self) -> OutcomeView {
        self@
    }
}

/// Where the audit of the current file stands.
#[derive(Clone, Copy, Debug, PartialEq, Eq, Structural)]
pub enum AuditPhase {
    /// The destination file is being read.
    Examining,
    /// The source is being copied over the destination file.
    Copying,
    /// The fresh copy is being read back.
    Confirming,
    /// Every record has been dealt with.
    Done,
}

/// Whether a destination file needs no repair: it could be read, and the
/// digest of its content agrees with the catalogued one, letter case aside.
pub open spec fn intact(content: Option<Seq<u8>>, expected: Seq<char>) -> bool {
    content matches Some(bytes) && digests_agree(digest_text(bytes), expected)
}

/// The state of an audit as a mathematical value: the records to audit, how
/// the audit of the first few of them ended, and where the audit of the next
/// one stands.
pub struct AuditState {
    pub records: Seq<FileRecord>,
    pub results: Seq<OutcomeView>,
    pub phase: AuditPhase,
}

impl AuditState {
    /// The state in which the audit of `records` begins, and the first request.
    pub open spec fn begin(records: Seq<FileRecord>) -> (AuditState, AuditActionView) {
        if records.len() > 0 {
            (
                AuditState { records, results: Seq::empty(), phase: AuditPhase::Examining },
                AuditActionView::Read { path: records[0].to },
            )
        } else {
            (
                AuditState { records, results: Seq::empty(), phase: AuditPhase::Done },
                AuditActionView::Done,
            )
        }
    }

    /// The record whose audit is under way.
    pub open spec fn current(self) -> FileRecord {
        self.records[self.results.len() as int]
    }

    /// The audit of the current file ends with `outcome`, and the audit turns
    /// to the next record, if there is one.
    pub open spec fn settle(self, outcome: OutcomeView) -> (AuditState, AuditActionView) {
        let results = self.results.push(outcome);
        if results.len() < self.records.len() {
            (
                AuditState { results, phase: AuditPhase::Examining, ..self },
                AuditActionView::Read { path: self.records[results.len() as int].to },
            )
        } else {
            (AuditState { results, phase: AuditPhase::Done, ..self }, AuditActionView::Done)
        }
    }

    /// The audit's answer to a report: the state that follows and the request
    /// that goes back to the caller. A report that does not fit the state is
    /// refused and changes nothing.
    pub open spec fn step(self, event: AuditEventView) -> (AuditState, AuditActionView) {
        if self.results.len() >= self.records.len() {
            (self, AuditActionView::Refused)
        } else {
            match (self.phase, event) {
                (AuditPhase::Examining, AuditEventView::Content(content)) => {
                    if intact(content, self.current().sha256) {
                        self.settle(OutcomeView::Intact)
                    } else {
                        (
                            AuditState { phase: AuditPhase::Copying, ..self },
                            AuditActionView::Copy {
                                from: self.current().from,
                                to: self.current().to,
                            },
                        )
                    }
                },
                (AuditPhase::Copying, AuditEventView::Copied) => (
                    AuditState { phase: AuditPhase::Confirming, ..self },
                    AuditActionView::Read { path: self.current().to },
                ),
                (AuditPhase::Copying, AuditEventView::CopyFailed { error }) => self.settle(
                    OutcomeView::CopyFailed { error },
                ),
                (AuditPhase::Confirming, AuditEventView::Content(Some(bytes))) => self.settle(
                    OutcomeView::Repaired(
                        FileRecord { sha256: digest_text(bytes), ..self.current() },
                    ),
                ),
                (AuditPhase::Confirming, AuditEventView::Content(None)) => self.settle(
                    OutcomeView::Unconfirmed { path: self.current().to },
                ),
                _ => (self, AuditActionView::Refused),
            }
        }
    }
}

/// How many of the audits ended with a file that is known to match its
/// record: those found intact and those repaired.
pub open spec fn verified_in(results: Seq<OutcomeView>) -> nat
    decreases results.len(),
{
    if results.len() == 0 {
        0
    } else {
        verified_in(results.drop_last()) + if results.last() is Intact || results.last()
            is Repaired {
            1nat
        } else {
            0nat
        }
    }
}

/// How many of the audits copied the source over the destination file.
pub open spec fn copied_in(results: Seq<OutcomeView>) -> nat
    decreases results.len(),
{
    if results.len() == 0 {
        0
    } else {
        copied_in(results.drop_last()) + if results.last() is Repaired || results.last()
            is Unconfirmed {
            1nat
        } else {
            0nat
        }
    }
}

/// The line that records a copy that could not be read back.
pub open spec fn unconfirmed_line(path: Seq<char>) -> Seq<char> {
    "Couldn't read \""@ + path + "\" after copying it again\n"@
}

/// The failures among the audits, in words, in the order of the records.
pub open spec fn failures_in(results: Seq<OutcomeView>) -> Seq<Seq<char>>
    decreases results.len(),
{
    if results.len() == 0 {
        Seq::empty()
    } else {
        let before = failures_in(results.drop_last());
        match results.last() {
            OutcomeView::CopyFailed { error } => before.push(error),
            OutcomeView::Unconfirmed { path } => before.push(unconfirmed_line(path)),
            _ => before,
        }
    }
}

/// The records to write back to the catalog: for each repaired file its
/// record with the digest of what now stands at the destination.
pub open spec fn rewritten_in(results: Seq<OutcomeView>) -> Seq<FileRecord>
    decreases results.len(),
{
    if results.len() == 0 {
        Seq::empty()
    } else {
        let before = rewritten_in(results.drop_last());
        match results.last() {
            OutcomeView::Repaired(record) => before.push(record),
            _ => before,
        }
    }
}

/// What an audit has to show for itself.
#[derive(Debug)]
pub struct VerifyReport {
    /// How many records were dealt with.
    pub seen: usize,
    /// How many files are known to match their record, as found or as repaired.
    pub verified: usize,
    /// How many times the source was copied over the destination.
    pub copied: usize,
    /// What went wrong, in words, in the order of the records.
    pub errors: Vec<String>,
    /// The records to write back to the catalog, one per repaired file.
    pub rewritten: Vec<FileEntry>,
}

/// An audit in progress.
#[derive(Debug)]
pub struct Auditor {
    records: Vec<FileEntry>,
    results: Vec<Outcome>,
    phase: AuditPhase,
}

impl View for Auditor {
    type V = AuditState;

    closed spec fn view(&self) -> AuditState {
        AuditState {
            records: self.records.deep_view(),
            results: self.results.deep_view(),
            phase: self.phase,
        }
    }
}

impl Auditor {
    /// Begins the audit of `records` and says what to do first.
    pub fn start(records: Vec<FileEntry>) -> (begun: (Auditor, AuditAction))
        ensures
            (begun.0@, begun.1@) == AuditState::begin(records.deep_view()),
    {
        if records.len() > 0 {
            let path = records[0].to.clone();
            let auditor = Auditor { records, results: Vec::new(), phase: AuditPhase::Examining };
            proof {
                assert(auditor@.results =~= Seq::empty());
            }
            (auditor, AuditAction::Read { path })
        } else {
            let auditor = Auditor { records, results: Vec::new(), phase: AuditPhase::Done };
            proof {
                assert(auditor@.results =~= Seq::empty());
            }
            (auditor, AuditAction::Done)
        }
    }

    /// Where the audit stands.
    pub fn phase(&self) -> (phase: AuditPhase)
        ensures
            phase == self@.phase,
    {
        self.phase
    }

    fn settle(&mut self, outcome: Outcome) -> (action: AuditAction)
        requires
            old(self)@.results.len() < old(self)@.records.len(),
        ensures
            (final(self)@, action@) == old(self)@.settle(outcome@),
    {
        self.results.push(outcome);
        proof {
            assert(self@.results =~= old(self)@.results.push(outcome@));
        }
        if self.results.len() < self.records.len() {
            self.phase = AuditPhase::Examining;
            AuditAction::Read { path: self.records[self.results.len()].to.clone() }
        } else {
            self.phase = AuditPhase::Done;
            AuditAction::Done
        }
    }

    /// Takes a report and answers with the next request, as
    /// [`AuditState::step`] defines it.
    pub fn step(&mut self, event: AuditEvent) -> (action: AuditAction)
        ensures
            (final(self)@, action@) == old(self)@.step(event@),
    {
        let at = self.results.len();
        if at >= self.records.len() {
            return AuditAction::Refused;
        }
        match self.phase {
            AuditPhase::Examining => match event {
                AuditEvent::Content(content) => {
                    let fine = match content {
                        Some(bytes) => {
                            let digest = file_digest(bytes.as_slice());
                            same_digest(digest.as_str(), self.records[at].sha256.as_str())
                        },
                        None => false,
                    };
                    if fine {
                        self.settle(Outcome::Intact)
                    } else {
                        self.phase = AuditPhase::Copying;
                        AuditAction::Copy {
                            from: self.records[at].from.clone(),
                            to: self.records[at].to.clone(),
                        }
                    }
                },
                _ => AuditAction::Refused,
            },
            AuditPhase::Copying => match event {
                AuditEvent::Copied => {
                    self.phase = AuditPhase::Confirming;
                    AuditAction::Read { path: self.records[at].to.clone() }
                },
                AuditEvent::CopyFailed { error } => self.settle(Outcome::CopyFailed { error }),
                _ => AuditAction::Refused,
            },
            AuditPhase::Confirming => match event {
                AuditEvent::Content(Some(bytes)) => {
                    let record = &self.records[at];
                    let fresh = FileEntry {
                        backup_id: record.backup_id,
                        from: record.from.clone(),
                        to: record.to.clone(),
                        sha256: file_digest(bytes.as_slice()),
                    };
                    self.settle(Outcome::Repaired(fresh))
                },
                AuditEvent::Content(None) => {
                    let path = self.records[at].to.clone();
                    self.settle(Outcome::Unconfirmed { path })
                },
                _ => AuditAction::Refused,
            },
            AuditPhase::Done => AuditAction::Refused,
        }
    }

    /// Closes the audit and hands over its report: the counts, the failures
    /// and the records to write back, for the records dealt with so far.
    pub fn finish(self) -> (report: VerifyReport)
        ensures
            report.seen == self@.results.len(),
            report.verified == verified_in(self@.results),
            report.copied == copied_in(self@.results),
            report.errors.deep_view() == failures_in(self@.results),
            report.rewritten.deep_view() == rewritten_in(self@.results),
    {
        let ghost results = self.results.deep_view();
        let mut verified: usize = 0;
        let mut copied: usize = 0;
        let mut errors: Vec<String> = Vec::new();
        let mut rewritten: Vec<FileEntry> = Vec::new();
        let mut i: usize = 0;
        proof {
            assert(results.take(0) =~= Seq::empty());
            assert(errors.deep_view() =~= failures_in(results.take(0)));
            assert(rewritten.deep_view() =~= rewritten_in(results.take(0)));
        }
        while i < self.results.len()
            invariant
                i <= self.results@.len(),
                results == self.results.deep_view(),
                verified == verified_in(results.take(i as int)),
                copied == copied_in(results.take(i as int)),
                verified <= i,
                copied <= i,
                errors.deep_view() == failures_in(results.take(i as int)),
                rewritten.deep_view() == rewritten_in(results.take(i as int)),
            decreases self.results@.len() - i,
        {
            let ghost errors_before = errors.deep_view();
            let ghost rewritten_before = rewritten.deep_view();
            proof {
                assert(results.take(i + 1).drop_last() =~= results.take(i as int));
                assert(results.take(i + 1).last() == self.results@[i as int]@);
            }
            match &self.results[i] {
                Outcome::Intact => {
                    verified += 1;
                },
                Outcome::Repaired(record) => {
                    verified += 1;
                    copied += 1;
                    rewritten.push(
                        FileEntry {
                            backup_id: record.backup_id,
                            from: record.from.clone(),
                            to: record.to.clone(),
                            sha256: record.sha256.clone(),
                        },
                    );
                    proof {
                        assert(rewritten.deep_view() =~= rewritten_before.push(record@));
                    }
                },
                Outcome::CopyFailed { error } => {
                    errors.push(error.clone());
                    proof {
                        assert(errors.deep_view() =~= errors_before.push(error@));
                    }
                },
                Outcome::Unconfirmed { path } => {
                    copied += 1;
                    let mut line = String::from_str("Couldn't read \"");
                    line.append(path.as_str());
                    line.append("\" after copying it again\n");
                    errors.push(line);
                    proof {
                        assert(errors.deep_view() =~= errors_before.push(unconfirmed_line(path@)));
                    }
                },
            }
            i += 1;
        }
        proof {
            assert(results.take(i as int) =~= results);
        }
        VerifyReport { seen: self.results.len(), verified, copied, errors, rewritten }
    }
}

} // verus!

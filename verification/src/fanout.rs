//! The parallel strategy: one worker per directory, one worker per file.
//!
//! A worker that reads a directory decides entry by entry what to send to the
//! aggregator, which file to put on the list of files to copy, and which
//! subdirectory to give to a worker of its own. A worker that copies a file
//! sends one result. The aggregator is [`Conclusion::absorb_all`]; in which
//! order the results reach it does not matter to the counts.

use crate::conclusion::{
    bytes_in, files_in, lemma_absorb_all_adds_up, lemma_order_is_immaterial, ConclusionFields,
    Summary, Tally,
};
use crate::size::FileSize;
use crate::walk::{
    copy_failure, copy_failure_line, read_failure, read_failure_line, Entry, EntryView, FileView,
    FoundFile, WalkEventView, WalkState,
};
use crate::walk_runs::{
    all_taken, bytes_of, files_seen, lemma_bytes_in_any_order, lemma_totals_follow_reports, run,
};
use vstd::prelude::*;

verus! {

/// What a directory worker does about one entry.
#[derive(Debug)]
pub struct WorkerStep {
    /// What goes to the aggregator, in this order.
    pub tallies: Vec<ConclusionFields>,
    /// The file that goes on the list of files to copy, if the entry is one.
    pub file: Option<FoundFile>,
    /// The subdirectory that gets a worker of its own, if the entry is one
    /// that was opened.
    pub descend: Option<u64>,
}

/// What goes to the aggregator for one entry: the size and the count of a
/// file, the failure of a directory that could not be opened, nothing else.
pub open spec fn tallies_for(entry: EntryView) -> Seq<Tally> {
    match entry {
        EntryView::File { path, size } => seq![Tally::Bytes(size), Tally::Count(1)],
        EntryView::Unreadable { path, os_error, error } => seq![
            Tally::Error(read_failure(path, error)),
        ],
        _ => Seq::empty(),
    }
}

/// The file that an entry puts on the list of files to copy.
pub open spec fn file_for(entry: EntryView) -> Option<FileView> {
    match entry {
        EntryView::File { path, size } => Some(FileView { path, size }),
        _ => None,
    }
}

/// The subdirectory that an entry gives to a worker of its own.
pub open spec fn descent_for(entry: EntryView) -> Option<u64> {
    match entry {
        EntryView::Directory { handle } => Some(handle),
        _ => None,
    }
}

/// Every size among the results has its units computed from its byte count.
pub open spec fn sizes_computed(tallies: Seq<ConclusionFields>) -> bool {
    forall|i: int|
        0 <= i < tallies.len() ==> ((#[trigger] tallies[i]) matches ConclusionFields::FileSize(
            size,
        ) ==> size.consistent())
}

/// Decides what a directory worker does about one entry.
///
/// The size sent for a file is the size of its byte count with the units
/// computed, as [`FileSize::from_bytes`] gives it.
pub fn worker_step(entry: Entry) -> (step: WorkerStep)
    ensures
        step.tallies.deep_view() == tallies_for(entry@),
        sizes_computed(step.tallies@),
        step.file.deep_view() == file_for(entry@),
        step.descend == descent_for(entry@),
{
    let mut tallies: Vec<ConclusionFields> = Vec::new();
    match entry {
        Entry::File { path, size } => {
            tallies.push(ConclusionFields::FileSize(FileSize::from_bytes(size)));
            tallies.push(ConclusionFields::TotalCount(1));
            proof {
                assert(tallies.deep_view() =~= tallies_for(entry@));
            }
            WorkerStep { tallies, file: Some(FoundFile { path, size }), descend: None }
        },
        Entry::Directory { handle } => {
            proof {
                assert(tallies.deep_view() =~= tallies_for(entry@));
            }
            WorkerStep { tallies, file: None, descend: Some(handle) }
        },
        Entry::Unreadable { path, os_error, error } => {
            let line = read_failure_line(path.as_str(), error.as_str());
            tallies.push(ConclusionFields::Error(line));
            proof {
                assert(tallies.deep_view() =~= tallies_for(entry@));
            }
            WorkerStep { tallies, file: None, descend: None }
        },
        Entry::Other => {
            proof {
                assert(tallies.deep_view() =~= tallies_for(entry@));
            }
            WorkerStep { tallies, file: None, descend: None }
        },
    }
}

/// How a copy went: the destination path, or the failure in words.
#[derive(Debug)]
pub enum CopyOutcome {
    Copied { dest: String },
    Failed { error: String },
}

/// What a copy worker sends to the aggregator: the pair of source and
/// destination for a file that was copied, the failure for one that was not.
pub open spec fn tally_for_copy(source: Seq<char>, outcome: CopyOutcome) -> Tally {
    match outcome {
        CopyOutcome::Copied { dest } => Tally::Pair(source, dest@),
        CopyOutcome::Failed { error } => Tally::Error(copy_failure(source, error@)),
    }
}

/// Decides what a copy worker sends to the aggregator.
pub fn copy_report(file: FoundFile, outcome: CopyOutcome) -> (report: ConclusionFields)
    ensures
        report@ == tally_for_copy(file@.path, outcome),
{
    match outcome {
        CopyOutcome::Copied { dest } => ConclusionFields::PathCouple((file.path, dest)),
        CopyOutcome::Failed { error } => {
            ConclusionFields::Error(copy_failure_line(file.path.as_str(), error.as_str()))
        },
    }
}

/// What a worker has to show for a whole directory.
#[derive(Debug)]
pub struct Scan {
    /// What goes to the aggregator, in the order of the entries.
    pub tallies: Vec<ConclusionFields>,
    /// The files that go on the list of files to copy, in the order of the entries.
    pub files: Vec<FoundFile>,
    /// The subdirectories that get a worker of their own, in the order of the entries.
    pub subdirs: Vec<u64>,
}

/// What goes to the aggregator for a list of entries.
pub open spec fn tallies_of(entries: Seq<EntryView>) -> Seq<Tally>
    decreases entries.len(),
{
    if entries.len() == 0 {
        Seq::empty()
    } else {
        tallies_of(entries.drop_last()) + tallies_for(entries.last())
    }
}

/// The files among a list of entries, in order.
pub open spec fn files_among(entries: Seq<EntryView>) -> Seq<FileView>
    decreases entries.len(),
{
    if entries.len() == 0 {
        Seq::empty()
    } else {
        match file_for(entries.last()) {
            Some(file) => files_among(entries.drop_last()).push(file),
            None => files_among(entries.drop_last()),
        }
    }
}

/// The opened subdirectories among a list of entries, in order.
pub open spec fn descents_among(entries: Seq<EntryView>) -> Seq<u64>
    decreases entries.len(),
{
    if entries.len() == 0 {
        Seq::empty()
    } else {
        match descent_for(entries.last()) {
            Some(handle) => descents_among(entries.drop_last()).push(handle),
            None => descents_among(entries.drop_last()),
        }
    }
}

/// Goes through the entries of one directory as a worker does, entry by
/// entry, and collects what comes of them.
pub fn scan(entries: Vec<Entry>) -> (found: Scan)
    ensures
        found.tallies.deep_view() == tallies_of(entries.deep_view()),
        sizes_computed(found.tallies@),
        found.files.deep_view() == files_among(entries.deep_view()),
        found.subdirs@ == descents_among(entries.deep_view()),
{
    let ghost listing = entries.deep_view();
    let ghost items = entries@;
    let mut tallies: Vec<ConclusionFields> = Vec::new();
    let mut files: Vec<FoundFile> = Vec::new();
    let mut subdirs: Vec<u64> = Vec::new();
    proof {
        assert(listing.take(0) =~= Seq::empty());
        assert(tallies.deep_view() =~= tallies_of(listing.take(0)));
        assert(files.deep_view() =~= files_among(listing.take(0)));
    }
    for entry in it: entries
        invariant
            it.seq() == items,
            listing == Seq::new(items.len(), |i: int| items[i]@),
            tallies.deep_view() == tallies_of(listing.take(it.index() as int)),
            sizes_computed(tallies@),
            files.deep_view() == files_among(listing.take(it.index() as int)),
            subdirs@ == descents_among(listing.take(it.index() as int)),
    {
        let ghost seen = listing.take(it.index() as int);
        let ghost more = listing.take(it.index() + 1);
        proof {
            assert(more.drop_last() =~= seen);
            assert(more.last() == entry@);
        }
        let ghost tallies_before = tallies.deep_view();
        let ghost held = tallies@;
        let ghost files_before = files.deep_view();
        let mut step = worker_step(entry);
        let ghost sent = step.tallies.deep_view();
        let ghost fresh = step.tallies@;
        tallies.append(&mut step.tallies);
        proof {
            assert(tallies.deep_view() =~= tallies_before + sent);
            assert forall|i: int| 0 <= i < tallies@.len() implies ((
            #[trigger] tallies@[i]) matches ConclusionFields::FileSize(size)
                ==> size.consistent()) by {
                if i < held.len() {
                    assert(tallies@[i] == held[i]);
                } else {
                    assert(tallies@[i] == fresh[i - held.len()]);
                }
            }
        }
        match step.file {
            Some(file) => {
                files.push(file);
                proof {
                    assert(files.deep_view() =~= files_before.push(file@));
                }
            },
            None => {},
        }
        match step.descend {
            Some(handle) => {
                subdirs.push(handle);
            },
            None => {},
        }
    }
    proof {
        assert(listing.take(items.len() as int) =~= listing);
    }
    Scan { tallies, files, subdirs }
}

proof fn lemma_sums_of_joined(left: Seq<Tally>, right: Seq<Tally>)
    ensures
        files_in(left + right) == files_in(left) + files_in(right),
        bytes_in(left + right) == bytes_in(left) + bytes_in(right),
    decreases right.len(),
{
    if right.len() == 0 {
        assert(left + right =~= left);
    } else {
        lemma_sums_of_joined(left, right.drop_last());
        assert((left + right).drop_last() =~= left + right.drop_last());
        assert((left + right).last() == right.last());
    }
}

/// What the workers send for a list of entries adds up to the number of files
/// among the entries and to the bytes they hold.
pub proof fn lemma_tallies_add_up(entries: Seq<EntryView>)
    ensures
        files_in(tallies_of(entries)) == files_among(entries).len(),
        bytes_in(tallies_of(entries)) == bytes_of(files_among(entries)),
    decreases entries.len(),
{
    if entries.len() > 0 {
        lemma_tallies_add_up(entries.drop_last());
        lemma_sums_of_joined(tallies_of(entries.drop_last()), tallies_for(entries.last()));
        let sent = tallies_for(entries.last());
        assert(files_in(Seq::<Tally>::empty()) == 0);
        assert(bytes_in(Seq::<Tally>::empty()) == 0);
        match entries.last() {
            EntryView::File { path, size } => {
                let first = seq![Tally::Bytes(size)];
                assert(first.drop_last() =~= Seq::<Tally>::empty());
                assert(first.last() == Tally::Bytes(size));
                assert(files_in(first) == 0);
                assert(bytes_in(first) == size);
                assert(sent.drop_last() =~= first);
                assert(sent.last() == Tally::Count(1));
                assert(files_in(sent) == 1);
                assert(bytes_in(sent) == size);
                assert(files_among(entries).drop_last() =~= files_among(entries.drop_last()));
            },
            EntryView::Unreadable { .. } => {
                assert(sent.drop_last() =~= Seq::<Tally>::empty());
                assert(files_in(sent) == 0);
                assert(bytes_in(sent) == 0);
            },
            _ => {},
        }
    }
}

/// Both strategies report the same count and the same size.
///
/// Let a sequential walk take the reports `events`. Let the workers of the
/// parallel strategy, all together, see the entries `entries`, and let what
/// they send reach the aggregator as `stream`, in whatever order the workers
/// happen to run. If both strategies were shown the same files, in whatever
/// order each came across them, then the walk's count and size are the
/// aggregator's.
pub proof fn lemma_strategies_agree(
    events: Seq<WalkEventView>,
    entries: Seq<EntryView>,
    stream: Seq<Tally>,
)
    requires
        all_taken(run(WalkState::start(), events).1),
        files_among(entries).to_multiset() == files_seen(events).to_multiset(),
        stream.to_multiset() == tallies_of(entries).to_multiset(),
    ensures
        run(WalkState::start(), events).0.found == Summary::empty().absorb_all(stream).total_count,
        run(WalkState::start(), events).0.bytes == Summary::empty().absorb_all(stream).total_bytes,
{
    lemma_totals_follow_reports(events);
    lemma_absorb_all_adds_up(Summary::empty(), stream);
    lemma_order_is_immaterial(stream, tallies_of(entries));
    lemma_tallies_add_up(entries);
    lemma_bytes_in_any_order(files_among(entries), files_seen(events));
}

} // verus!

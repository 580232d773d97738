//! Both strategies on one directory tree.
//!
//! A tree is given as its readers find it: the listing of every directory, in
//! the order in which the sequential walk reads them. The root's listing comes
//! first; the subdirectories that the listings name are numbered from one in
//! the order of their appearance, and the listing of the subdirectory with
//! number `k` stands at place `k`. Each subdirectory is named before its own
//! listing begins. A subdirectory that could not be opened has no listing;
//! where opening one ran the process out of file descriptors, the walk copies
//! its backlog on the spot. Every copy goes well.

use crate::conclusion::{lemma_absorb_all_adds_up, lemma_order_is_immaterial, Summary, Tally};
use crate::fanout::{descents_among, files_among, lemma_tallies_add_up, tallies_of};
use crate::walk::{
    EntryView, FileView, Phase, WalkActionView, WalkEventView, WalkState, TOO_MANY_OPEN_FILES,
};
use crate::walk_runs::{
    all_outcomes, all_taken, bytes_of, copies_failed, dirs_opened, dirs_read, files_handed,
    files_seen, lemma_finished_walk_is_complete, lemma_pressure_drains_backlog,
    lemma_run_is_balanced, run,
};
use vstd::prelude::*;

verus! {

/// The entries of a list of listings, one listing after the other.
pub open spec fn joined(listings: Seq<Seq<EntryView>>) -> Seq<EntryView>
    decreases listings.len(),
{
    if listings.len() == 0 {
        Seq::empty()
    } else {
        joined(listings.drop_last()) + listings.last()
    }
}

/// What the reader of one directory reports for its entries, in order.
pub open spec fn as_reports(entries: Seq<EntryView>) -> Seq<WalkEventView> {
    Seq::new(entries.len(), |i: int| WalkEventView::Entry(entries[i]))
}

/// What the readers of a list of directories report: for each directory its
/// entries and then its end.
pub open spec fn reading(listings: Seq<Seq<EntryView>>) -> Seq<WalkEventView>
    decreases listings.len(),
{
    if listings.len() == 0 {
        Seq::empty()
    } else {
        reading(listings.drop_last()) + as_reports(listings.last()).push(
            WalkEventView::EndOfDirectory,
        )
    }
}

/// Whether a report says that opening a directory ran the process out of
/// file descriptors.
pub open spec fn is_pressure(event: WalkEventView) -> bool {
    event matches WalkEventView::Entry(EntryView::Unreadable { os_error, .. }) && os_error
        == TOO_MANY_OPEN_FILES
}

/// The files that wait to be copied after the reports `events` of the
/// readers, the newest first: every file found since the backlog was last
/// copied.
pub open spec fn backlog_after(events: Seq<WalkEventView>) -> Seq<FileView>
    decreases events.len(),
{
    if events.len() == 0 {
        Seq::empty()
    } else {
        let before = backlog_after(events.drop_last());
        match events.last() {
            WalkEventView::Entry(EntryView::File { path, size }) => seq![FileView { path, size }]
                + before,
            _ => if is_pressure(events.last()) && before.len() > 0 {
                Seq::empty()
            } else {
                before
            },
        }
    }
}

/// The reports of copies that all went well, one per file, each with the
/// destination that `dest_of` gives the file.
pub open spec fn copies_of(
    files: Seq<FileView>,
    dest_of: spec_fn(FileView) -> Seq<char>,
) -> Seq<WalkEventView> {
    Seq::new(files.len(), |i: int| WalkEventView::Copied { dest: dest_of(files[i]) })
}

/// The reports of the readers together with the reports of the copies that
/// the walk asks for in between, when file descriptors run out.
pub open spec fn served(
    events: Seq<WalkEventView>,
    dest_of: spec_fn(FileView) -> Seq<char>,
) -> Seq<WalkEventView>
    decreases events.len(),
{
    if events.len() == 0 {
        Seq::empty()
    } else {
        let before = served(events.drop_last(), dest_of);
        let waiting = backlog_after(events.drop_last());
        if is_pressure(events.last()) && waiting.len() > 0 {
            before.push(events.last()) + copies_of(waiting, dest_of)
        } else {
            before.push(events.last())
        }
    }
}

/// A directory tree as its readers find it.
pub struct Tree {
    /// The listing of every directory; the root's comes first.
    pub listings: Seq<Seq<EntryView>>,
}

impl Tree {
    /// Every entry of the tree, listing by listing.
    pub open spec fn entries(self) -> Seq<EntryView> {
        joined(self.listings)
    }

    /// Every file of the tree, listing by listing.
    pub open spec fn files(self) -> Seq<FileView> {
        files_among(self.entries())
    }

    /// The listings are those of one tree, in the order in which the
    /// sequential walk reads them: there is a root; the opened subdirectories
    /// bear the numbers one, two, three and so on in the order in which the
    /// listings name them, one for each listing but the root's; and each is
    /// named before its own listing begins.
    pub open spec fn well_formed(self) -> bool {
        &&& self.listings.len() >= 1
        &&& descents_among(self.entries()).len() == self.listings.len() - 1
        &&& forall|i: int|
            0 <= i < descents_among(self.entries()).len() ==> #[trigger] descents_among(
                self.entries(),
            )[i] == i + 1
        &&& forall|k: int|
            1 <= k < self.listings.len() ==> descents_among(
                #[trigger] joined(self.listings.take(k)),
            ).len() >= k
    }

    /// The number of files and the bytes they hold fit a machine word.
    pub open spec fn fits(self) -> bool {
        self.files().len() <= usize::MAX && bytes_of(self.files()) <= usize::MAX
    }

    /// What the sequential walk is told of the tree: every directory is read
    /// in turn, every copy that the walk asks for is made, to the destination
    /// that `dest_of` gives the file, and so are the copies at the end.
    pub open spec fn reports(self, dest_of: spec_fn(FileView) -> Seq<char>) -> Seq<WalkEventView> {
        served(reading(self.listings), dest_of) + copies_of(
            backlog_after(reading(self.listings)),
            dest_of,
        )
    }
}

proof fn lemma_run_joins(from: WalkState, first: Seq<WalkEventView>, second: Seq<WalkEventView>)
    ensures
        run(from, first + second).0 == run(run(from, first).0, second).0,
        run(from, first + second).1 == run(from, first).1 + run(run(from, first).0, second).1,
    decreases second.len(),
{
    if second.len() == 0 {
        assert(first + second =~= first);
        assert(run(from, first).1 + run(run(from, first).0, second).1 =~= run(from, first).1);
    } else {
        lemma_run_joins(from, first, second.drop_last());
        assert((first + second).drop_last() =~= first + second.drop_last());
        assert((first + second).last() == second.last());
        let (mid, a1) = run(from, first);
        let (before, a2) = run(mid, second.drop_last());
        let (end, a) = before.step(second.last());
        assert(run(from, first + second).1 =~= a1 + a2.push(a));
    }
}

proof fn lemma_among_joins(first: Seq<EntryView>, second: Seq<EntryView>)
    ensures
        files_among(first + second) == files_among(first) + files_among(second),
        descents_among(first + second) == descents_among(first) + descents_among(second),
    decreases second.len(),
{
    if second.len() == 0 {
        assert(first + second =~= first);
        assert(files_among(first) + files_among(second) =~= files_among(first));
        assert(descents_among(first) + descents_among(second) =~= descents_among(first));
    } else {
        lemma_among_joins(first, second.drop_last());
        assert((first + second).drop_last() =~= first + second.drop_last());
        assert((first + second).last() == second.last());
        assert(files_among(first + second) =~= files_among(first) + files_among(second));
        assert(descents_among(first + second) =~= descents_among(first) + descents_among(second));
    }
}

proof fn lemma_bytes_join(first: Seq<FileView>, second: Seq<FileView>)
    ensures
        bytes_of(first + second) == bytes_of(first) + bytes_of(second),
    decreases second.len(),
{
    if second.len() == 0 {
        assert(first + second =~= first);
    } else {
        lemma_bytes_join(first, second.drop_last());
        assert((first + second).drop_last() =~= first + second.drop_last());
        assert((first + second).last() == second.last());
    }
}

proof fn lemma_seen_joins(first: Seq<WalkEventView>, second: Seq<WalkEventView>)
    ensures
        files_seen(first + second) == files_seen(first) + files_seen(second),
        dirs_opened(first + second) == dirs_opened(first) + dirs_opened(second),
    decreases second.len(),
{
    if second.len() == 0 {
        assert(first + second =~= first);
        assert(files_seen(first) + files_seen(second) =~= files_seen(first));
        assert(dirs_opened(first) + dirs_opened(second) =~= dirs_opened(first));
    } else {
        lemma_seen_joins(first, second.drop_last());
        assert((first + second).drop_last() =~= first + second.drop_last());
        assert((first + second).last() == second.last());
        assert(files_seen(first + second) =~= files_seen(first) + files_seen(second));
        assert(dirs_opened(first + second) =~= dirs_opened(first) + dirs_opened(second));
    }
}

proof fn lemma_reports_show_entries(entries: Seq<EntryView>)
    ensures
        files_seen(as_reports(entries)) == files_among(entries),
        dirs_opened(as_reports(entries)) == descents_among(entries),
    decreases entries.len(),
{
    if entries.len() > 0 {
        lemma_reports_show_entries(entries.drop_last());
        assert(as_reports(entries).drop_last() =~= as_reports(entries.drop_last()));
        assert(as_reports(entries).last() == WalkEventView::Entry(entries.last()));
    }
}

proof fn lemma_reading_shows_listings(listings: Seq<Seq<EntryView>>)
    ensures
        files_seen(reading(listings)) == files_among(joined(listings)),
        dirs_opened(reading(listings)) == descents_among(joined(listings)),
    decreases listings.len(),
{
    if listings.len() > 0 {
        let rest = listings.drop_last();
        let last = listings.last();
        lemma_reading_shows_listings(rest);
        let tail = as_reports(last).push(WalkEventView::EndOfDirectory);
        lemma_seen_joins(reading(rest), tail);
        lemma_reports_show_entries(last);
        assert(tail.drop_last() =~= as_reports(last));
        assert(files_seen(tail) == files_among(last));
        assert(dirs_opened(tail) == descents_among(last));
        lemma_among_joins(joined(rest), last);
    }
}

proof fn lemma_joined_joins(first: Seq<Seq<EntryView>>, second: Seq<Seq<EntryView>>)
    ensures
        joined(first + second) == joined(first) + joined(second),
    decreases second.len(),
{
    if second.len() == 0 {
        assert(first + second =~= first);
        assert(joined(first) + joined(second) =~= joined(first));
    } else {
        lemma_joined_joins(first, second.drop_last());
        assert((first + second).drop_last() =~= first + second.drop_last());
        assert((first + second).last() == second.last());
        assert(joined(first + second) =~= joined(first) + joined(second));
    }
}

/// What has been reported when the first `done` listings are read to their
/// end and the next one up to its entry `at`.
pub open spec fn read_so_far(tree: Tree, done: int, at: int) -> Seq<WalkEventView> {
    reading(tree.listings.take(done)) + as_reports(tree.listings[done].take(at))
}

/// The entries that have been reported by then.
pub open spec fn entries_so_far(tree: Tree, done: int, at: int) -> Seq<EntryView> {
    joined(tree.listings.take(done)) + tree.listings[done].take(at)
}

proof fn lemma_so_far(tree: Tree, done: int, at: int)
    requires
        0 <= done < tree.listings.len(),
        0 <= at <= tree.listings[done].len(),
    ensures
        files_seen(read_so_far(tree, done, at)) == files_among(entries_so_far(tree, done, at)),
        dirs_opened(read_so_far(tree, done, at)) == descents_among(
            entries_so_far(tree, done, at),
        ),
        files_among(entries_so_far(tree, done, at)).len() <= tree.files().len(),
        bytes_of(files_among(entries_so_far(tree, done, at))) <= bytes_of(tree.files()),
{
    let lists = tree.listings;
    let here = lists[done];
    lemma_seen_joins(reading(lists.take(done)), as_reports(here.take(at)));
    lemma_reading_shows_listings(lists.take(done));
    lemma_reports_show_entries(here.take(at));
    lemma_among_joins(joined(lists.take(done)), here.take(at));
    // The whole tree is what has been reported and what is still to come.
    let to_come = here.skip(at) + joined(lists.skip(done + 1));
    assert(lists =~= lists.take(done + 1) + lists.skip(done + 1));
    lemma_joined_joins(lists.take(done + 1), lists.skip(done + 1));
    assert(lists.take(done + 1).drop_last() =~= lists.take(done));
    assert(lists.take(done + 1).last() == here);
    assert(here =~= here.take(at) + here.skip(at));
    assert(tree.entries() =~= entries_so_far(tree, done, at) + to_come);
    lemma_among_joins(entries_so_far(tree, done, at), to_come);
    lemma_bytes_join(files_among(entries_so_far(tree, done, at)), files_among(to_come));
}

proof fn lemma_answers_join(first: Seq<WalkActionView>, second: Seq<WalkActionView>)
    ensures
        dirs_read(first + second) == dirs_read(first) + dirs_read(second),
        all_taken(first) && all_taken(second) ==> all_taken(first + second),
    decreases second.len(),
{
    if second.len() == 0 {
        assert(first + second =~= first);
        assert(dirs_read(first) + dirs_read(second) =~= dirs_read(first));
    } else {
        lemma_answers_join(first, second.drop_last());
        assert((first + second).drop_last() =~= first + second.drop_last());
        assert((first + second).last() == second.last());
        assert(dirs_read(first + second) =~= dirs_read(first) + dirs_read(second));
    }
    if all_taken(first) && all_taken(second) {
        assert forall|i: int| 0 <= i < (first + second).len() implies #[trigger] (first
            + second)[i] != WalkActionView::Refused by {
            if i < first.len() {
                assert((first + second)[i] == first[i]);
            } else {
                assert((first + second)[i] == second[i - first.len()]);
            }
        }
    }
}

proof fn lemma_no_reads(answers: Seq<WalkActionView>)
    requires
        forall|i: int| 0 <= i < answers.len() ==> !((#[trigger] answers[i]) is Read),
    ensures
        dirs_read(answers).len() == 0,
    decreases answers.len(),
{
    if answers.len() > 0 {
        assert forall|i: int| 0 <= i < answers.drop_last().len() implies !((
        #[trigger] answers.drop_last()[i]) is Read) by {
            assert(answers.drop_last()[i] == answers[i]);
        }
        lemma_no_reads(answers.drop_last());
        assert(!(answers[answers.len() - 1] is Read));
    }
}

proof fn lemma_copies_show_nothing(files: Seq<FileView>, dest_of: spec_fn(FileView) -> Seq<char>)
    ensures
        files_seen(copies_of(files, dest_of)).len() == 0,
        dirs_opened(copies_of(files, dest_of)).len() == 0,
        copies_failed(copies_of(files, dest_of)) == 0,
        all_outcomes(copies_of(files, dest_of)),
    decreases files.len(),
{
    if files.len() > 0 {
        lemma_copies_show_nothing(files.drop_last(), dest_of);
        assert(copies_of(files, dest_of).drop_last() =~= copies_of(files.drop_last(), dest_of));
    }
}

proof fn lemma_failures_join(first: Seq<WalkEventView>, second: Seq<WalkEventView>)
    ensures
        copies_failed(first + second) == copies_failed(first) + copies_failed(second),
    decreases second.len(),
{
    if second.len() == 0 {
        assert(first + second =~= first);
    } else {
        lemma_failures_join(first, second.drop_last());
        assert((first + second).drop_last() =~= first + second.drop_last());
        assert((first + second).last() == second.last());
    }
}

/// The copies in between add no entries and no failures to what the readers
/// report.
proof fn lemma_served_shows_the_same(
    events: Seq<WalkEventView>,
    dest_of: spec_fn(FileView) -> Seq<char>,
)
    requires
        forall|i: int| 0 <= i < events.len() ==> !((#[trigger] events[i]) is CopyFailed),
    ensures
        files_seen(served(events, dest_of)) == files_seen(events),
        dirs_opened(served(events, dest_of)) == dirs_opened(events),
        copies_failed(served(events, dest_of)) == 0,
    decreases events.len(),
{
    if events.len() > 0 {
        let rest = events.drop_last();
        let last = events.last();
        assert forall|i: int| 0 <= i < rest.len() implies !((#[trigger] rest[i]) is CopyFailed) by {
            assert(rest[i] == events[i]);
        }
        lemma_served_shows_the_same(rest, dest_of);
        let before = served(rest, dest_of);
        let waiting = backlog_after(rest);
        assert(!(events[events.len() - 1] is CopyFailed));
        assert(before.push(last).drop_last() =~= before);
        assert(before.push(last).last() == last);
        if is_pressure(last) && waiting.len() > 0 {
            lemma_seen_joins(before.push(last), copies_of(waiting, dest_of));
            lemma_failures_join(before.push(last), copies_of(waiting, dest_of));
            lemma_copies_show_nothing(waiting, dest_of);
            assert(files_seen(before.push(last)) + files_seen(copies_of(waiting, dest_of))
                =~= files_seen(before.push(last)));
            assert(dirs_opened(before.push(last)) + dirs_opened(copies_of(waiting, dest_of))
                =~= dirs_opened(before.push(last)));
        }
    }
}

proof fn lemma_reading_is_no_outcome(listings: Seq<Seq<EntryView>>)
    ensures
        forall|i: int|
            0 <= i < reading(listings).len() ==> !((#[trigger] reading(listings)[i])
                is CopyFailed),
    decreases listings.len(),
{
    if listings.len() > 0 {
        lemma_reading_is_no_outcome(listings.drop_last());
        let head = reading(listings.drop_last());
        let tail = as_reports(listings.last()).push(WalkEventView::EndOfDirectory);
        assert forall|i: int| 0 <= i < reading(listings).len() implies !((#[trigger] reading(
            listings,
        )[i]) is CopyFailed) by {
            if i < head.len() {
                assert(reading(listings)[i] == head[i]);
            } else {
                assert(reading(listings)[i] == tail[i - head.len()]);
            }
        }
    }
}

proof fn lemma_so_far_is_no_outcome(tree: Tree, done: int, at: int)
    requires
        0 <= done < tree.listings.len(),
        0 <= at <= tree.listings[done].len(),
    ensures
        forall|i: int|
            0 <= i < read_so_far(tree, done, at).len() ==> !((#[trigger] read_so_far(
                tree,
                done,
                at,
            )[i]) is CopyFailed),
{
    lemma_reading_is_no_outcome(tree.listings.take(done));
    let head = reading(tree.listings.take(done));
    let tail = as_reports(tree.listings[done].take(at));
    let all = read_so_far(tree, done, at);
    assert forall|i: int| 0 <= i < all.len() implies !((#[trigger] all[i]) is CopyFailed) by {
        if i < head.len() {
            assert(all[i] == head[i]);
        } else {
            assert(all[i] == tail[i - head.len()]);
        }
    }
}

proof fn lemma_answers_grow(given: Seq<WalkActionView>, answer: WalkActionView)
    requires
        all_taken(given),
        answer != WalkActionView::Refused,
    ensures
        all_taken(given.push(answer)),
        dirs_read(given.push(answer)) == match answer {
            WalkActionView::Read(handle) => dirs_read(given).push(handle),
            _ => dirs_read(given),
        },
{
    assert(given.push(answer).drop_last() =~= given);
    assert(given.push(answer).last() == answer);
    assert forall|i: int| 0 <= i < given.push(answer).len() implies #[trigger] given.push(
        answer,
    )[i] != WalkActionView::Refused by {
        if i < given.len() {
            assert(given.push(answer)[i] == given[i]);
        }
    }
}

/// While the directories are read, the walk takes every report, keeps
/// reading, and holds in its backlog what [`backlog_after`] says.
proof fn lemma_reading_goes_on(
    tree: Tree,
    dest_of: spec_fn(FileView) -> Seq<char>,
    done: int,
    at: int,
)
    requires
        tree.well_formed(),
        tree.fits(),
        0 <= done < tree.listings.len(),
        0 <= at <= tree.listings[done].len(),
    ensures
        ({
            let events = read_so_far(tree, done, at);
            let (state, answers) = run(WalkState::start(), served(events, dest_of));
            &&& all_taken(answers)
            &&& state.phase == Phase::Reading
            &&& state.backlog == backlog_after(events)
            &&& dirs_read(answers).len() == done
        }),
    decreases done, at,
{
    let lists = tree.listings;
    let events = read_so_far(tree, done, at);
    if at > 0 {
        let entry = lists[done][at - 1];
        let report = WalkEventView::Entry(entry);
        let before = read_so_far(tree, done, at - 1);
        lemma_reading_goes_on(tree, dest_of, done, at - 1);
        lemma_so_far_is_no_outcome(tree, done, at - 1);
        lemma_served_shows_the_same(before, dest_of);
        lemma_run_is_balanced(served(before, dest_of));
        lemma_so_far(tree, done, at - 1);
        lemma_so_far(tree, done, at);
        assert(as_reports(lists[done].take(at)) =~= as_reports(lists[done].take(at - 1)).push(
            report,
        ));
        assert(events =~= before.push(report));
        assert(events.drop_last() =~= before);
        assert(events.last() == report);
        let fed = served(before, dest_of);
        let (mid, given) = run(WalkState::start(), fed);
        let waiting = backlog_after(before);
        lemma_seen_joins(before, seq![report]);
        assert(before + seq![report] =~= events);
        if is_pressure(report) && waiting.len() > 0 {
            let path = entry->Unreadable_path;
            let error = entry->Unreadable_error;
            assert(report == WalkEventView::Entry(
                EntryView::Unreadable { path, os_error: TOO_MANY_OPEN_FILES, error },
            ));
            let outcomes = copies_of(waiting, dest_of);
            lemma_copies_show_nothing(waiting, dest_of);
            lemma_pressure_drains_backlog(mid, path, error, outcomes);
            assert(fed.push(report) + outcomes =~= fed + (seq![report] + outcomes));
            lemma_run_joins(WalkState::start(), fed, seq![report] + outcomes);
            let (end, later) = run(mid, seq![report] + outcomes);
            assert(end.backlog =~= Seq::<FileView>::empty());
            assert forall|i: int| 0 <= i < later.len() implies !((#[trigger] later[i]) is Read)
                && later[i] != WalkActionView::Refused by {
                if i < waiting.len() {
                    assert(later[i] == WalkActionView::Copy(mid.backlog[i]));
                } else {
                    assert(later[i] == later.last());
                }
            }
            lemma_no_reads(later);
            lemma_answers_join(given, later);
            assert(dirs_read(given) + dirs_read(later) =~= dirs_read(given));
        } else {
            assert(fed.push(report).drop_last() =~= fed);
            assert(fed.push(report).last() == report);
            let (state, answer) = mid.step(report);
            match entry {
                EntryView::File { path, size } => {
                    assert(files_seen(events) == files_seen(before).push(FileView { path, size }));
                    assert(files_seen(events).drop_last() =~= files_seen(before));
                    assert(bytes_of(files_seen(events)) == bytes_of(files_seen(before)) + size);
                    assert(answer == WalkActionView::Next);
                },
                _ => {
                    assert(answer == WalkActionView::Next);
                },
            }
            lemma_answers_grow(given, answer);
        }
    } else if done > 0 {
        let last = lists[done - 1];
        let before = read_so_far(tree, done - 1, last.len() as int);
        lemma_reading_goes_on(tree, dest_of, done - 1, last.len() as int);
        lemma_so_far_is_no_outcome(tree, done - 1, last.len() as int);
        lemma_served_shows_the_same(before, dest_of);
        lemma_run_is_balanced(served(before, dest_of));
        lemma_so_far(tree, done - 1, last.len() as int);
        assert(last.take(last.len() as int) =~= last);
        assert(lists[done].take(0) =~= Seq::<EntryView>::empty());
        assert(as_reports(lists[done].take(0)) =~= Seq::<WalkEventView>::empty());
        assert(lists.take(done).drop_last() =~= lists.take(done - 1));
        assert(lists.take(done).last() == last);
        assert(events =~= before.push(WalkEventView::EndOfDirectory));
        assert(events.drop_last() =~= before);
        assert(events.last() == WalkEventView::EndOfDirectory);
        let fed = served(before, dest_of);
        assert(fed.push(WalkEventView::EndOfDirectory).drop_last() =~= fed);
        assert(fed.push(WalkEventView::EndOfDirectory).last() == WalkEventView::EndOfDirectory);
        let (mid, given) = run(WalkState::start(), fed);
        let (state, answer) = mid.step(WalkEventView::EndOfDirectory);
        assert(entries_so_far(tree, done - 1, last.len() as int) =~= joined(lists.take(done)));
        assert(descents_among(joined(lists.take(done))).len() >= done);
        assert(dirs_opened(fed).len() == dirs_read(given).len() + mid.queue.len());
        assert(mid.queue.len() > 0);
        assert(answer == WalkActionView::Read(mid.queue[0]));
        lemma_answers_grow(given, answer);
    } else {
        assert(lists.take(0) =~= Seq::<Seq<EntryView>>::empty());
        assert(lists[done].take(0) =~= Seq::<EntryView>::empty());
        assert(events =~= Seq::<WalkEventView>::empty());
    }
}

proof fn lemma_flush_ends(state: WalkState, outcomes: Seq<WalkEventView>)
    requires
        state.phase == Phase::Flushing,
        state.in_hand is Some,
        outcomes.len() == state.backlog.len() + 1,
        forall|i: int| 0 <= i < outcomes.len() ==> (#[trigger] outcomes[i]) is Copied,
    ensures
        run(state, outcomes).0.phase == Phase::Done,
        all_taken(run(state, outcomes).1),
        dirs_read(run(state, outcomes).1).len() == 0,
    decreases outcomes.len(),
{
    let first = seq![outcomes[0]];
    let rest = outcomes.skip(1);
    assert(outcomes =~= first + rest);
    lemma_run_joins(state, first, rest);
    assert(first.drop_last() =~= Seq::<WalkEventView>::empty());
    assert(run(state, Seq::<WalkEventView>::empty()) == (state, Seq::<WalkActionView>::empty()));
    assert(first.last() == outcomes[0]);
    let (mid, answer) = state.step(outcomes[0]);
    assert(run(state, first).0 == mid);
    assert(run(state, first).1 =~= seq![answer]);
    let one = seq![answer];
    assert(one.drop_last() =~= Seq::<WalkActionView>::empty());
    assert(dirs_read(Seq::<WalkActionView>::empty()).len() == 0);
    assert(dirs_read(one).len() == 0);
    if state.backlog.len() > 0 {
        assert forall|i: int| 0 <= i < rest.len() implies (#[trigger] rest[i]) is Copied by {
            assert(rest[i] == outcomes[i + 1]);
        }
        lemma_flush_ends(mid, rest);
    } else {
        assert(rest =~= Seq::<WalkEventView>::empty());
        assert(run(mid, rest).1 =~= Seq::<WalkActionView>::empty());
    }
    lemma_answers_join(one, run(mid, rest).1);
}

/// On a tree, the sequential walk reads every directory, copies every file
/// and ends; its count and size are those of the tree's files.
///
/// The walk is told of the tree as [`Tree::reports`] says. Then it takes
/// every report, asks for each opened subdirectory to be read in its turn,
/// ends, and reports the number of the tree's files and the bytes they hold;
/// every file is handed out for copying once and is among the copied.
pub proof fn lemma_walk_covers_tree(tree: Tree, dest_of: spec_fn(FileView) -> Seq<char>)
    requires
        tree.well_formed(),
        tree.fits(),
    ensures
        ({
            let (end, answers) = run(WalkState::start(), tree.reports(dest_of));
            &&& all_taken(answers)
            &&& end.phase == Phase::Done
            &&& end.found == tree.files().len()
            &&& end.bytes == bytes_of(tree.files())
            &&& end.copied.len() == tree.files().len()
            &&& dirs_read(answers) == descents_among(tree.entries())
            &&& files_handed(answers).to_multiset() == tree.files().to_multiset()
        }),
{
    let lists = tree.listings;
    let last = lists.last();
    let n = lists.len() as int;
    let before = read_so_far(tree, n - 1, last.len() as int);
    lemma_reading_goes_on(tree, dest_of, n - 1, last.len() as int);
    lemma_so_far_is_no_outcome(tree, n - 1, last.len() as int);
    lemma_served_shows_the_same(before, dest_of);
    lemma_run_is_balanced(served(before, dest_of));
    lemma_so_far(tree, n - 1, last.len() as int);
    assert(last.take(last.len() as int) =~= last);
    assert(lists.take(n) =~= lists);
    assert(lists.drop_last() =~= lists.take(n - 1));
    let read = reading(lists);
    let end_of_all = WalkEventView::EndOfDirectory;
    assert(read =~= before.push(end_of_all));
    assert(read.drop_last() =~= before);
    assert(read.last() == end_of_all);
    assert(entries_so_far(tree, n - 1, last.len() as int) =~= tree.entries());
    let fed = served(before, dest_of);
    assert(served(read, dest_of) == fed.push(end_of_all));
    assert(fed.push(end_of_all).drop_last() =~= fed);
    assert(fed.push(end_of_all).last() == end_of_all);
    let (mid, given) = run(WalkState::start(), fed);
    let (state, answer) = mid.step(end_of_all);
    assert(mid.queue.len() == 0);
    lemma_answers_grow(given, answer);
    let waiting = backlog_after(read);
    assert(waiting == mid.backlog);
    let outcomes = copies_of(waiting, dest_of);
    let events = tree.reports(dest_of);
    lemma_run_joins(WalkState::start(), served(read, dest_of), outcomes);
    let later = run(state, outcomes).1;
    if waiting.len() > 0 {
        lemma_flush_ends(state, outcomes);
    } else {
        assert(outcomes =~= Seq::<WalkEventView>::empty());
        assert(later =~= Seq::<WalkActionView>::empty());
    }
    lemma_answers_join(given.push(answer), later);
    lemma_reading_is_no_outcome(lists);
    lemma_served_shows_the_same(read, dest_of);
    lemma_copies_show_nothing(waiting, dest_of);
    lemma_seen_joins(served(read, dest_of), outcomes);
    lemma_failures_join(served(read, dest_of), outcomes);
    lemma_reading_shows_listings(lists);
    lemma_finished_walk_is_complete(events);
    assert(files_seen(events) =~= tree.files());
    assert(dirs_opened(events) =~= descents_among(tree.entries()));
}

/// On a tree, both strategies report the same count and the same size: the
/// number of the tree's files and the bytes they hold.
///
/// The sequential walk is told of the tree as [`Tree::reports`] says. In the
/// parallel strategy every directory of the tree is read by one worker, and
/// what the workers send reaches the aggregator as `stream`, in whatever
/// order the workers happen to run.
pub proof fn lemma_strategies_agree_on_tree(
    tree: Tree,
    dest_of: spec_fn(FileView) -> Seq<char>,
    stream: Seq<Tally>,
)
    requires
        tree.well_formed(),
        tree.fits(),
        stream.to_multiset() == tallies_of(tree.entries()).to_multiset(),
    ensures
        ({
            let walked = run(WalkState::start(), tree.reports(dest_of)).0;
            let gathered = Summary::empty().absorb_all(stream);
            &&& walked.phase == Phase::Done
            &&& walked.found == tree.files().len()
            &&& walked.bytes == bytes_of(tree.files())
            &&& gathered.total_count == walked.found
            &&& gathered.total_bytes == walked.bytes
        }),
{
    lemma_walk_covers_tree(tree, dest_of);
    lemma_absorb_all_adds_up(Summary::empty(), stream);
    lemma_order_is_immaterial(stream, tallies_of(tree.entries()));
    lemma_tallies_add_up(tree.entries());
}

} // verus!

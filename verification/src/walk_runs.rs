//! Whole runs of the sequential walk, and what holds of every one of them.

use crate::walk::{EntryView, FileView, Phase, WalkActionView, WalkEventView, WalkState};
use vstd::prelude::*;

verus! {

/// The state a walk reaches from `from` after the reports `events`, and the
/// requests it answered with, one per report.
pub open spec fn run(from: WalkState, events: Seq<WalkEventView>) -> (WalkState, Seq<
    WalkActionView,
>)
    decreases events.len(),
{
    if events.len() == 0 {
        (from, Seq::empty())
    } else {
        let (mid, answers) = run(from, events.drop_last());
        let (next, answer) = mid.step(events.last());
        (next, answers.push(answer))
    }
}

/// No report was refused.
pub open spec fn all_taken(answers: Seq<WalkActionView>) -> bool {
    forall|i: int| 0 <= i < answers.len() ==> #[trigger] answers[i] != WalkActionView::Refused
}

/// The files among the reported entries, in the order of the reports.
pub open spec fn files_seen(events: Seq<WalkEventView>) -> Seq<FileView>
    decreases events.len(),
{
    if events.len() == 0 {
        Seq::empty()
    } else {
        match events.last() {
            WalkEventView::Entry(EntryView::File { path, size }) => files_seen(
                events.drop_last(),
            ).push(FileView { path, size }),
            _ => files_seen(events.drop_last()),
        }
    }
}

/// The directories among the reported entries that were opened, in the order
/// of the reports.
pub open spec fn dirs_opened(events: Seq<WalkEventView>) -> Seq<u64>
    decreases events.len(),
{
    if events.len() == 0 {
        Seq::empty()
    } else {
        match events.last() {
            WalkEventView::Entry(EntryView::Directory { handle }) => dirs_opened(
                events.drop_last(),
            ).push(handle),
            _ => dirs_opened(events.drop_last()),
        }
    }
}

/// How many of the reports say that a copy failed.
pub open spec fn copies_failed(events: Seq<WalkEventView>) -> nat
    decreases events.len(),
{
    if events.len() == 0 {
        0
    } else {
        copies_failed(events.drop_last()) + if events.last() is CopyFailed {
            1nat
        } else {
            0nat
        }
    }
}

/// How many of the reports say that a directory could not be opened.
pub open spec fn dirs_failed(events: Seq<WalkEventView>) -> nat
    decreases events.len(),
{
    if events.len() == 0 {
        0
    } else {
        dirs_failed(events.drop_last()) + if events.last() matches WalkEventView::Entry(
            EntryView::Unreadable { .. },
        ) {
            1nat
        } else {
            0nat
        }
    }
}

/// The files that the walk handed out for copying, in the order of the requests.
pub open spec fn files_handed(answers: Seq<WalkActionView>) -> Seq<FileView>
    decreases answers.len(),
{
    if answers.len() == 0 {
        Seq::empty()
    } else {
        match answers.last() {
            WalkActionView::Copy(file) => files_handed(answers.drop_last()).push(file),
            _ => files_handed(answers.drop_last()),
        }
    }
}

/// The directories that the walk asked to have read, in the order of the requests.
pub open spec fn dirs_read(answers: Seq<WalkActionView>) -> Seq<u64>
    decreases answers.len(),
{
    if answers.len() == 0 {
        Seq::empty()
    } else {
        match answers.last() {
            WalkActionView::Read(handle) => dirs_read(answers.drop_last()).push(handle),
            _ => dirs_read(answers.drop_last()),
        }
    }
}

/// The bytes that a list of files holds.
pub open spec fn bytes_of(files: Seq<FileView>) -> nat
    decreases files.len(),
{
    if files.len() == 0 {
        0
    } else {
        bytes_of(files.drop_last()) + files.last().size
    }
}

/// The books balance: what the state holds accounts for every report taken
/// and every request made so far.
pub open spec fn balanced(
    state: WalkState,
    events: Seq<WalkEventView>,
    answers: Seq<WalkActionView>,
) -> bool {
    &&& files_seen(events).to_multiset() =~= state.backlog.to_multiset().add(
        files_handed(answers).to_multiset(),
    )
    &&& dirs_opened(events) =~= dirs_read(answers) + state.queue
    &&& state.found == files_seen(events).len()
    &&& state.bytes == bytes_of(files_seen(events))
    &&& state.errors.len() == dirs_failed(events) + copies_failed(events)
    &&& files_handed(answers).len() == state.copied.len() + copies_failed(events) + if state.in_hand
        is Some {
        1nat
    } else {
        0nat
    }
    &&& state.in_hand is Some <==> state.phase == Phase::Draining || state.phase
        == Phase::Flushing
    &&& state.phase == Phase::Flushing || state.phase == Phase::Done ==> state.queue.len() == 0
    &&& state.phase == Phase::Done ==> state.backlog.len() == 0
}

proof fn lemma_front(files: Seq<FileView>, file: FileView)
    ensures
        (seq![file] + files).to_multiset() =~= files.to_multiset().insert(file),
{
    vstd::seq_lib::to_multiset_insert(files, 0, file);
    assert(files.insert(0, file) =~= seq![file] + files);
}

proof fn lemma_rest(files: Seq<FileView>)
    requires
        files.len() > 0,
    ensures
        files.skip(1).to_multiset() =~= files.to_multiset().remove(files[0]),
        files.to_multiset().count(files[0]) > 0,
{
    vstd::seq_lib::to_multiset_remove(files, 0);
    assert(files.remove(0) =~= files.skip(1));
    vstd::seq_lib::to_multiset_contains(files, files[0]);
    assert(files.contains(files[0]));
}

proof fn lemma_proceed_keeps_balance(
    state: WalkState,
    events: Seq<WalkEventView>,
    answers: Seq<WalkActionView>,
)
    requires
        state.phase == Phase::Draining || state.phase == Phase::Flushing,
        state.phase == Phase::Flushing ==> state.queue.len() == 0,
        files_seen(events).to_multiset() =~= state.backlog.to_multiset().add(
            files_handed(answers).to_multiset(),
        ),
        dirs_opened(events) =~= dirs_read(answers) + state.queue,
        state.found == files_seen(events).len(),
        state.bytes == bytes_of(files_seen(events)),
        state.errors.len() == dirs_failed(events) + copies_failed(events),
        files_handed(answers).len() == state.copied.len() + copies_failed(events),
    ensures
        balanced(state.proceed().0, events, answers.push(state.proceed().1)),
        state.proceed().1 != WalkActionView::Refused,
{
    let answer = state.proceed().1;
    let after = answers.push(answer);
    assert(after.drop_last() =~= answers);
    assert(after.last() == answer);
    if state.backlog.len() > 0 {
        lemma_rest(state.backlog);
        vstd::seq_lib::to_multiset_build(files_handed(answers), state.backlog[0]);
        assert(files_handed(after) == files_handed(answers).push(state.backlog[0]));
        assert(dirs_read(after) == dirs_read(answers));
    } else {
        assert(files_handed(after) == files_handed(answers));
        assert(dirs_read(after) == dirs_read(answers));
    }
}

/// One more report that is taken keeps the books balanced.
proof fn lemma_step_keeps_balance(
    state: WalkState,
    events: Seq<WalkEventView>,
    answers: Seq<WalkActionView>,
    event: WalkEventView,
)
    requires
        balanced(state, events, answers),
        state.step(event).1 != WalkActionView::Refused,
    ensures
        balanced(state.step(event).0, events.push(event), answers.push(state.step(event).1)),
{
    let (next, answer) = state.step(event);
    let fed = events.push(event);
    let after = answers.push(answer);
    assert(fed.drop_last() =~= events);
    assert(fed.last() == event);
    assert(after.drop_last() =~= answers);
    assert(after.last() == answer);
    match state.phase {
        Phase::Reading => match event {
            WalkEventView::Entry(EntryView::File { path, size }) => {
                let file = FileView { path, size };
                lemma_front(state.backlog, file);
                vstd::seq_lib::to_multiset_build(files_seen(events), file);
                assert(files_seen(fed) == files_seen(events).push(file));
                assert(files_seen(fed).drop_last() =~= files_seen(events));
            },
            WalkEventView::Entry(EntryView::Directory { handle }) => {
                assert(dirs_opened(fed) == dirs_opened(events).push(handle));
            },
            WalkEventView::Entry(EntryView::Unreadable { path, os_error, error }) => {
                if os_error == crate::walk::TOO_MANY_OPEN_FILES && state.backlog.len() > 0 {
                    let noted = WalkState {
                        phase: Phase::Draining,
                        errors: state.errors.push(crate::walk::read_failure(path, error)),
                        ..state
                    };
                    lemma_proceed_keeps_balance(noted, fed, answers);
                }
            },
            WalkEventView::Entry(EntryView::Other) => {},
            WalkEventView::EndOfDirectory => {
                if state.queue.len() > 0 {
                    assert(dirs_read(after) == dirs_read(answers).push(state.queue[0]));
                    assert(dirs_read(after) + state.queue.skip(1) =~= dirs_read(answers)
                        + state.queue);
                } else {
                    let turned = WalkState { phase: Phase::Flushing, ..state };
                    lemma_proceed_keeps_balance(turned, fed, answers);
                }
            },
            _ => {},
        },
        Phase::Draining | Phase::Flushing => {
            let file = state.in_hand->0;
            match event {
                WalkEventView::Copied { dest } => {
                    let noted = WalkState { copied: state.copied.push((file.path, dest)), ..state };
                    lemma_proceed_keeps_balance(noted, fed, answers);
                },
                WalkEventView::CopyFailed { error } => {
                    let noted = WalkState {
                        errors: state.errors.push(crate::walk::copy_failure(file.path, error)),
                        ..state
                    };
                    lemma_proceed_keeps_balance(noted, fed, answers);
                },
                _ => {},
            }
        },
        Phase::Done => {},
    }
}

/// The books of a walk are balanced after any reports of which none was
/// refused.
pub proof fn lemma_run_is_balanced(events: Seq<WalkEventView>)
    requires
        all_taken(run(WalkState::start(), events).1),
    ensures
        balanced(run(WalkState::start(), events).0, events, run(WalkState::start(), events).1),
    decreases events.len(),
{
    if events.len() == 0 {
        let none = Seq::<FileView>::empty();
        assert forall|file: FileView| none.to_multiset().count(file) == 0 by {
            vstd::seq_lib::to_multiset_contains(none, file);
        }
        assert(none.to_multiset() =~= none.to_multiset().add(none.to_multiset()));
    } else {
        let (mid, answers) = run(WalkState::start(), events.drop_last());
        let (next, answer) = mid.step(events.last());
        assert forall|i: int| 0 <= i < answers.len() implies #[trigger] answers[i]
            != WalkActionView::Refused by {
            assert(answers.push(answer)[i] == answers[i]);
        }
        assert(answers.push(answer)[answers.len() as int] == answer);
        lemma_run_is_balanced(events.drop_last());
        lemma_step_keeps_balance(mid, events.drop_last(), answers, events.last());
        assert(events.drop_last().push(events.last()) =~= events);
    }
}

/// A walk that has ended has lost nothing and done nothing twice.
///
/// Of a walk that took every report and reached its end: the files handed out
/// for copying are the files that were reported, each as often as it was
/// reported; the directories that it asked to have read are the directories
/// that were reported as opened, in that order; the count and the size are
/// those of the reported files; every found file was either copied or
/// recorded as failed; and the errors are the directories that could not be
/// opened and the copies that failed.
pub proof fn lemma_finished_walk_is_complete(events: Seq<WalkEventView>)
    requires
        all_taken(run(WalkState::start(), events).1),
        run(WalkState::start(), events).0.phase == Phase::Done,
    ensures
        ({
            let (end, answers) = run(WalkState::start(), events);
            &&& files_handed(answers).to_multiset() == files_seen(events).to_multiset()
            &&& dirs_read(answers) == dirs_opened(events)
            &&& end.found == files_seen(events).len()
            &&& end.bytes == bytes_of(files_seen(events))
            &&& end.copied.len() + copies_failed(events) == end.found
            &&& end.errors.len() == dirs_failed(events) + copies_failed(events)
        }),
{
    lemma_run_is_balanced(events);
    let (end, answers) = run(WalkState::start(), events);
    let none = Seq::<FileView>::empty();
    assert(end.backlog =~= none);
    assert forall|file: FileView| none.to_multiset().count(file) == 0 by {
        vstd::seq_lib::to_multiset_contains(none, file);
    }
    assert(files_handed(answers).to_multiset() =~= files_seen(events).to_multiset());
    assert(dirs_read(answers) + end.queue =~= dirs_read(answers));
    vstd::seq_lib::to_multiset_len(files_handed(answers));
    vstd::seq_lib::to_multiset_len(files_seen(events));
}

/// While a walk goes on, the count and the size are those of the files
/// reported so far.
pub proof fn lemma_totals_follow_reports(events: Seq<WalkEventView>)
    requires
        all_taken(run(WalkState::start(), events).1),
    ensures
        run(WalkState::start(), events).0.found == files_seen(events).len(),
        run(WalkState::start(), events).0.bytes == bytes_of(files_seen(events)),
{
    lemma_run_is_balanced(events);
}

proof fn lemma_bytes_without(files: Seq<FileView>, at: int)
    requires
        0 <= at < files.len(),
    ensures
        bytes_of(files) == bytes_of(files.remove(at)) + files[at].size,
    decreases files.len(),
{
    if at == files.len() - 1 {
        assert(files.remove(at) =~= files.drop_last());
    } else {
        lemma_bytes_without(files.drop_last(), at);
        assert(files.remove(at).drop_last() =~= files.drop_last().remove(at));
        assert(files.remove(at).last() == files.last());
    }
}

/// The order in which files are found does not matter to their number nor to
/// the bytes they hold.
pub proof fn lemma_bytes_in_any_order(left: Seq<FileView>, right: Seq<FileView>)
    requires
        left.to_multiset() == right.to_multiset(),
    ensures
        left.len() == right.len(),
        bytes_of(left) == bytes_of(right),
    decreases left.len(),
{
    broadcast use vstd::seq_lib::group_to_multiset_ensures;

    left.to_multiset_ensures();
    right.to_multiset_ensures();
    if left.len() == 0 {
        assert(right.to_multiset().len() == 0);
    } else {
        let x = left.last();
        assert(left =~= left.drop_last().push(x));
        assert(left.to_multiset() =~= left.drop_last().to_multiset().insert(x));
        assert(right.to_multiset().count(x) > 0);
        assert(right.contains(x));
        let at = choose|at: int| 0 <= at < right.len() && right[at] == x;
        assert(right.remove(at).to_multiset() =~= right.to_multiset().remove(x));
        assert(left.drop_last().to_multiset() =~= left.to_multiset().remove(x));
        lemma_bytes_in_any_order(left.drop_last(), right.remove(at));
        lemma_bytes_without(right, at);
    }
}

/// Whether every report of a list is the outcome of a copy.
pub open spec fn all_outcomes(events: Seq<WalkEventView>) -> bool {
    forall|i: int|
        0 <= i < events.len() ==> (#[trigger] events[i]) is Copied || events[i] is CopyFailed
}

proof fn lemma_drain_progress(
    state: WalkState,
    pressure: WalkEventView,
    outcomes: Seq<WalkEventView>,
    done: int,
)
    requires
        state.phase == Phase::Reading,
        state.backlog.len() > 0,
        outcomes.len() == state.backlog.len(),
        all_outcomes(outcomes),
        pressure matches WalkEventView::Entry(EntryView::Unreadable { os_error, .. })
            && os_error == crate::walk::TOO_MANY_OPEN_FILES,
        0 <= done < outcomes.len(),
    ensures
        ({
            let (mid, answers) = run(state, (seq![pressure] + outcomes).take(done + 1));
            &&& mid.phase == Phase::Draining
            &&& mid.in_hand == Some(state.backlog[done])
            &&& mid.backlog == state.backlog.skip(done + 1)
            &&& mid.queue == state.queue
            &&& mid.found == state.found
            &&& mid.bytes == state.bytes
            &&& mid.copied.len() + mid.errors.len() == state.copied.len() + state.errors.len() + 1
                + done
            &&& answers.len() == done + 1
            &&& forall|i: int|
                0 <= i <= done ==> #[trigger] answers[i] == WalkActionView::Copy(state.backlog[i])
        }),
    decreases done,
{
    let all = seq![pressure] + outcomes;
    let fed = all.take(done + 1);
    assert(fed.last() == all[done]);
    assert(fed.drop_last() =~= all.take(done));
    if done == 0 {
        assert(all.take(0) =~= Seq::<WalkEventView>::empty());
        assert(fed.drop_last().len() == 0);
        let (zero, nothing) = run(state, fed.drop_last());
        assert(zero == state);
        assert(nothing =~= Seq::<WalkActionView>::empty());
        assert(all[0] == pressure);
        assert(state.backlog.skip(1) =~= state.backlog.skip(done + 1));
    } else {
        lemma_drain_progress(state, pressure, outcomes, done - 1);
        let (before, answers) = run(state, all.take(done));
        assert(all[done] == outcomes[done - 1]);
        assert(before.backlog.len() > 0);
        assert(before.backlog[0] == state.backlog[done]);
        assert(before.backlog.skip(1) =~= state.backlog.skip(done + 1));
        let (mid, answer) = before.step(all[done]);
        assert(answer == WalkActionView::Copy(state.backlog[done]));
        assert forall|i: int| 0 <= i <= done implies #[trigger] answers.push(answer)[i]
            == WalkActionView::Copy(state.backlog[i]) by {
            if i < done {
                assert(answers.push(answer)[i] == answers[i]);
            }
        }
    }
}

/// When file descriptors run out, the backlog is copied before anything else
/// is read, and no file of it is lost or copied twice.
///
/// Take a walk that is reading a directory and has files in its backlog. Let
/// the next report be a directory that could not be opened for want of file
/// descriptors, and let the caller then report one outcome per file of the
/// backlog. Then the walk answers with exactly these requests: a copy of each
/// file of the backlog, once, from the newest to the oldest, and only after
/// the last outcome the request for the next entry. No directory is asked to
/// be read in between. Afterwards the backlog is empty, the waiting
/// directories, the count and the size are what they were, and each file of
/// the backlog shows either among the copied files or among the errors,
/// besides the one error for the directory.
pub proof fn lemma_pressure_drains_backlog(
    state: WalkState,
    path: Seq<char>,
    error: Seq<char>,
    outcomes: Seq<WalkEventView>,
)
    requires
        state.phase == Phase::Reading,
        state.backlog.len() > 0,
        outcomes.len() == state.backlog.len(),
        all_outcomes(outcomes),
    ensures
        ({
            let pressure = WalkEventView::Entry(
                EntryView::Unreadable { path, os_error: crate::walk::TOO_MANY_OPEN_FILES, error },
            );
            let (end, answers) = run(state, seq![pressure] + outcomes);
            &&& answers.len() == outcomes.len() + 1
            &&& forall|i: int|
                0 <= i < state.backlog.len() ==> #[trigger] answers[i] == WalkActionView::Copy(
                    state.backlog[i],
                )
            &&& answers.last() == WalkActionView::Next
            &&& end.phase == Phase::Reading
            &&& end.in_hand is None
            &&& end.backlog.len() == 0
            &&& end.queue == state.queue
            &&& end.found == state.found
            &&& end.bytes == state.bytes
            &&& end.copied.len() + end.errors.len() == state.copied.len() + state.errors.len() + 1
                + outcomes.len()
        }),
{
    let pressure = WalkEventView::Entry(
        EntryView::Unreadable { path, os_error: crate::walk::TOO_MANY_OPEN_FILES, error },
    );
    let all = seq![pressure] + outcomes;
    let last = outcomes.len() - 1;
    lemma_drain_progress(state, pressure, outcomes, last);
    assert(all.drop_last() =~= all.take(last + 1));
    assert(all.last() == outcomes[last]);
    let (before, answers) = run(state, all.drop_last());
    assert(before.backlog.len() == 0);
    let (end, answer) = before.step(all.last());
    assert(answer == WalkActionView::Next);
    assert forall|i: int| 0 <= i < state.backlog.len() implies #[trigger] answers.push(answer)[i]
        == WalkActionView::Copy(state.backlog[i]) by {
        assert(answers.push(answer)[i] == answers[i]);
    }
}

} // verus!

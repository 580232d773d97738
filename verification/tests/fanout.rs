use hardcpy::conclusion::{Conclusion, ConclusionFields};
use hardcpy::fanout::{copy_report, scan, worker_step, CopyOutcome};
use hardcpy::walk::{Entry, FoundFile, WalkAction, WalkEvent, Walker};

fn file(path: &str, size: usize) -> Entry {
    Entry::File { path: path.to_string(), size }
}

#[test]
fn worker_sends_size_and_count_for_a_file() {
    let step = worker_step(file("src/a", 4096));
    assert_eq!(step.tallies.len(), 2);
    match &step.tallies[0] {
        ConclusionFields::FileSize(size) => {
            assert_eq!(size.byte, 4096);
            assert_eq!(size.kb, 4);
            assert_eq!(size.mb, 0);
            assert_eq!(size.gb, 0);
        }
        other => panic!("expected a size, got {:?}", other),
    }
    assert!(matches!(step.tallies[1], ConclusionFields::TotalCount(1)));
    let found = step.file.expect("a file goes on the list");
    assert_eq!(found.path, "src/a");
    assert_eq!(found.size, 4096);
    assert_eq!(step.descend, None);
}

#[test]
fn worker_descends_into_an_opened_directory() {
    let step = worker_step(Entry::Directory { handle: 12 });
    assert!(step.tallies.is_empty());
    assert!(step.file.is_none());
    assert_eq!(step.descend, Some(12));
}

#[test]
fn worker_reports_a_directory_it_could_not_open() {
    let step = worker_step(Entry::Unreadable {
        path: "src/private".to_string(),
        os_error: 13,
        error: "permission denied".to_string(),
    });
    assert_eq!(step.tallies.len(), 1);
    match &step.tallies[0] {
        ConclusionFields::Error(text) => assert_eq!(
            text,
            "Couldn't read \"src/private\" because of error: permission denied. Skipping\n"
        ),
        other => panic!("expected an error, got {:?}", other),
    }
    assert!(step.file.is_none());
    assert_eq!(step.descend, None);
}

#[test]
fn worker_passes_over_anything_else() {
    let step = worker_step(Entry::Other);
    assert!(step.tallies.is_empty());
    assert!(step.file.is_none());
    assert_eq!(step.descend, None);
}

#[test]
fn scan_collects_a_whole_directory() {
    let found = scan(vec![
        file("src/a", 10),
        Entry::Directory { handle: 1 },
        Entry::Other,
        file("src/b", 20),
        Entry::Unreadable { path: "src/x".to_string(), os_error: 24, error: "full".to_string() },
        Entry::Directory { handle: 2 },
    ]);
    assert_eq!(found.tallies.len(), 5);
    assert_eq!(found.subdirs, vec![1, 2]);
    let paths: Vec<&str> = found.files.iter().map(|f| f.path.as_str()).collect();
    assert_eq!(paths, vec!["src/a", "src/b"]);
    let mut conclusion = Conclusion::new();
    assert_eq!(conclusion.absorb_all(found.tallies), 5);
    assert_eq!(conclusion.total_count, 2);
    assert_eq!(conclusion.total_size.byte, 30);
    assert_eq!(conclusion.error_count, 1);
}

#[test]
fn sizes_sent_have_their_units_computed() {
    let found = scan(vec![
        file("src/a", 5 * 1024 * 1024 * 1024),
        Entry::Directory { handle: 1 },
        file("src/b", 3 * 1024 * 1024 + 17),
    ]);
    let sizes: Vec<(usize, usize, usize, usize)> = found
        .tallies
        .iter()
        .filter_map(|tally| match tally {
            ConclusionFields::FileSize(size) => Some((size.byte, size.kb, size.mb, size.gb)),
            _ => None,
        })
        .collect();
    assert_eq!(
        sizes,
        vec![
            (5 * 1024 * 1024 * 1024, 5 * 1024 * 1024, 5 * 1024, 5),
            (3 * 1024 * 1024 + 17, 3 * 1024, 3, 0),
        ]
    );
}

#[test]
fn scan_of_an_empty_directory_is_empty() {
    let found = scan(Vec::new());
    assert!(found.tallies.is_empty());
    assert!(found.files.is_empty());
    assert!(found.subdirs.is_empty());
}

#[test]
fn copy_worker_reports_the_pair_or_the_failure() {
    let done = copy_report(
        FoundFile { path: "src/a".to_string(), size: 1 },
        CopyOutcome::Copied { dest: "dst/src/a".to_string() },
    );
    match done {
        ConclusionFields::PathCouple((from, to)) => {
            assert_eq!(from, "src/a");
            assert_eq!(to, "dst/src/a");
        }
        other => panic!("expected a pair, got {:?}", other),
    }
    let failed = copy_report(
        FoundFile { path: "src/b".to_string(), size: 1 },
        CopyOutcome::Failed { error: "no space".to_string() },
    );
    match failed {
        ConclusionFields::Error(text) => {
            assert_eq!(text, "Couldn't copy \"src/b\" because of error: no space. Skipping\n")
        }
        other => panic!("expected an error, got {:?}", other),
    }
}

// A tree as both strategies see it: one listing per directory. Listing 0 is
// the root; a directory entry names the listing of the subdirectory. A handle
// of zero marks a subdirectory that could not be opened for want of file
// descriptors.
fn listings() -> Vec<Vec<(&'static str, usize, Option<u64>)>> {
    vec![
        vec![("r/a", 100, None), ("r/d1", 0, Some(1)), ("r/b", 2_000_000, None), ("r/d2", 0, Some(2))],
        vec![("r/d1/c", 7, None), ("r/d1/d3", 0, Some(3))],
        vec![],
        vec![("r/d1/d3/e", 123_456, None), ("r/d1/d3/f", 0, None)],
    ]
}

fn listings_under_pressure() -> Vec<Vec<(&'static str, usize, Option<u64>)>> {
    vec![
        vec![("r/a", 100, None), ("r/d1", 0, Some(1)), ("r/x", 0, Some(0)), ("r/b", 2_000, None)],
        vec![("r/d1/c", 7, None), ("r/d1/y", 0, Some(0)), ("r/d1/z", 0, Some(0)), ("r/d1/d", 9, None)],
    ]
}

fn entry(item: &(&'static str, usize, Option<u64>)) -> Entry {
    match item.2 {
        Some(0) => Entry::Unreadable {
            path: item.0.to_string(),
            os_error: hardcpy::walk::TOO_MANY_OPEN_FILES,
            error: "too many open files".to_string(),
        },
        Some(handle) => Entry::Directory { handle },
        None => file(item.0, item.1),
    }
}

fn sequential_totals() -> (usize, usize) {
    sequential_totals_of(listings())
}

fn sequential_totals_of(tree: Vec<Vec<(&'static str, usize, Option<u64>)>>) -> (usize, usize) {
    let mut walker = Walker::start();
    let mut current = 0usize;
    let mut at = 0usize;
    loop {
        let event = if at < tree[current].len() {
            at += 1;
            WalkEvent::Entry(entry(&tree[current][at - 1]))
        } else {
            WalkEvent::EndOfDirectory
        };
        let mut action = walker.step(event);
        loop {
            match action {
                WalkAction::Copy(found) => {
                    action = walker.step(WalkEvent::Copied { dest: format!("dst/{}", found.path) });
                }
                WalkAction::Next => break,
                WalkAction::Read(handle) => {
                    current = handle as usize;
                    at = 0;
                    break;
                }
                WalkAction::Done => {
                    let conclusion = walker.finish();
                    return (conclusion.total_count, conclusion.total_size.byte);
                }
                WalkAction::Refused => panic!("refused"),
            }
        }
    }
}

fn parallel_totals(order: &[usize]) -> (usize, usize) {
    parallel_totals_of(listings(), order)
}

fn parallel_totals_of(
    tree: Vec<Vec<(&'static str, usize, Option<u64>)>>,
    order: &[usize],
) -> (usize, usize) {
    let mut conclusion = Conclusion::new();
    for &directory in order {
        let found = scan(tree[directory].iter().map(entry).collect());
        let sent = found.tallies.len();
        assert_eq!(conclusion.absorb_all(found.tallies), sent);
    }
    (conclusion.total_count, conclusion.total_size.byte)
}

#[test]
fn both_strategies_report_the_same_totals() {
    let expected = (5, 100 + 2_000_000 + 7 + 123_456);
    assert_eq!(sequential_totals(), expected);
    assert_eq!(parallel_totals(&[0, 1, 2, 3]), expected);
    assert_eq!(parallel_totals(&[3, 2, 1, 0]), expected);
    assert_eq!(parallel_totals(&[2, 0, 3, 1]), expected);
}

#[test]
fn both_strategies_agree_when_descriptors_run_out() {
    let expected = (4, 100 + 2_000 + 7 + 9);
    assert_eq!(sequential_totals_of(listings_under_pressure()), expected);
    assert_eq!(parallel_totals_of(listings_under_pressure(), &[0, 1]), expected);
    assert_eq!(parallel_totals_of(listings_under_pressure(), &[1, 0]), expected);
}

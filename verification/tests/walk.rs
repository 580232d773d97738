use hardcpy::conclusion::Conclusion;
use hardcpy::walk::{
    copy_failure_line, read_failure_line, Entry, Phase, WalkAction, WalkEvent, Walker,
    TOO_MANY_OPEN_FILES,
};

enum Node {
    File(&'static str, usize),
    Dir(Vec<Node>),
    Locked(&'static str, i32),
    Socket,
}

struct Trace {
    conclusion: Conclusion,
    reads: Vec<u64>,
    copies: Vec<String>,
    log: Vec<String>,
}

fn file(path: &str, size: usize) -> WalkEvent {
    WalkEvent::Entry(Entry::File { path: path.to_string(), size })
}

fn locked(path: &str, os_error: i32) -> WalkEvent {
    WalkEvent::Entry(Entry::Unreadable {
        path: path.to_string(),
        os_error,
        error: "denied".to_string(),
    })
}

fn walk_tree(root: &Node) -> Trace {
    let mut listings: Vec<&Vec<Node>> = Vec::new();
    let top = match root {
        Node::Dir(children) => children,
        _ => panic!("the root is a directory"),
    };
    listings.push(top);
    let mut walker = Walker::start();
    let mut trace =
        Trace { conclusion: Conclusion::new(), reads: vec![0], copies: Vec::new(), log: Vec::new() };
    let mut current: usize = 0;
    let mut at: usize = 0;
    loop {
        let event = if at < listings[current].len() {
            let node = &listings[current][at];
            at += 1;
            match node {
                Node::File(path, size) => file(path, *size),
                Node::Dir(children) => {
                    listings.push(children);
                    WalkEvent::Entry(Entry::Directory { handle: (listings.len() - 1) as u64 })
                }
                Node::Locked(path, code) => locked(path, *code),
                Node::Socket => WalkEvent::Entry(Entry::Other),
            }
        } else {
            WalkEvent::EndOfDirectory
        };
        trace.log.push(format!("{:?}", event));
        let mut action = walker.step(event);
        loop {
            match action {
                WalkAction::Copy(found) => {
                    trace.copies.push(found.path.clone());
                    let outcome = if found.path.contains("bad") {
                        WalkEvent::CopyFailed { error: "disk full".to_string() }
                    } else {
                        WalkEvent::Copied { dest: format!("dst/{}", found.path) }
                    };
                    action = walker.step(outcome);
                }
                WalkAction::Next => break,
                WalkAction::Read(handle) => {
                    trace.reads.push(handle);
                    current = handle as usize;
                    at = 0;
                    break;
                }
                WalkAction::Done => {
                    assert_eq!(walker.phase(), Phase::Done);
                    trace.conclusion = walker.finish();
                    return trace;
                }
                WalkAction::Refused => panic!("the walk refused a report"),
            }
        }
    }
}

fn sample_tree() -> Node {
    Node::Dir(vec![
        Node::File("src/a", 10),
        Node::Dir(vec![
            Node::File("src/d1/b", 2000),
            Node::Dir(vec![Node::File("src/d1/d3/c", 5)]),
            Node::Socket,
        ]),
        Node::File("src/e", 1),
        Node::Dir(vec![]),
        Node::Dir(vec![Node::File("src/d2/f", 3_000_000)]),
    ])
}

#[test]
fn walk_finds_every_file_once() {
    let trace = walk_tree(&sample_tree());
    assert_eq!(trace.conclusion.total_count, 5);
    assert_eq!(trace.conclusion.total_size.byte, 10 + 2000 + 5 + 1 + 3_000_000);
    assert_eq!(trace.conclusion.total_size.mb, 2);
    assert_eq!(trace.conclusion.error_count, 0);
    let mut copies = trace.copies.clone();
    copies.sort();
    assert_eq!(copies, vec!["src/a", "src/d1/b", "src/d1/d3/c", "src/d2/f", "src/e"]);
    assert_eq!(trace.conclusion.path_list.len(), 5);
    for (from, to) in &trace.conclusion.path_list {
        assert_eq!(to, &format!("dst/{}", from));
    }
}

#[test]
fn directories_are_read_in_the_order_they_were_opened() {
    let trace = walk_tree(&sample_tree());
    // Handles are given in the order of discovery: the three children of the
    // root first, then the grandchild.
    assert_eq!(trace.reads, vec![0, 1, 2, 3, 4]);
}

#[test]
fn backlog_is_copied_newest_first_at_the_end() {
    let trace = walk_tree(&sample_tree());
    assert_eq!(trace.copies, vec!["src/d1/d3/c", "src/d2/f", "src/d1/b", "src/e", "src/a"]);
}

#[test]
fn empty_tree_is_done_at_once() {
    let trace = walk_tree(&Node::Dir(vec![]));
    assert_eq!(trace.conclusion.total_count, 0);
    assert_eq!(trace.conclusion.total_size.byte, 0);
    assert!(trace.copies.is_empty());
    assert!(trace.conclusion.path_list.is_empty());
}

#[test]
fn unreadable_directory_is_noted_and_skipped() {
    let tree = Node::Dir(vec![
        Node::File("src/a", 1),
        Node::Locked("src/private", 13),
        Node::File("src/b", 2),
    ]);
    let trace = walk_tree(&tree);
    assert_eq!(trace.conclusion.total_count, 2);
    assert_eq!(trace.conclusion.error_count, 1);
    assert_eq!(
        trace.conclusion.error_list,
        vec!["Couldn't read \"src/private\" because of error: denied. Skipping\n".to_string()]
    );
    // No pressure: the files are copied only at the end.
    assert_eq!(trace.copies, vec!["src/b", "src/a"]);
}

#[test]
fn failed_copy_is_noted_and_the_walk_goes_on() {
    let tree = Node::Dir(vec![
        Node::File("src/a", 1),
        Node::File("src/bad", 2),
        Node::File("src/c", 3),
    ]);
    let trace = walk_tree(&tree);
    assert_eq!(trace.conclusion.total_count, 3);
    assert_eq!(trace.conclusion.total_size.byte, 6);
    assert_eq!(trace.conclusion.error_count, 1);
    assert_eq!(
        trace.conclusion.error_list,
        vec!["Couldn't copy \"src/bad\" because of error: disk full. Skipping\n".to_string()]
    );
    assert_eq!(
        trace.conclusion.path_list,
        vec![
            ("src/c".to_string(), "dst/src/c".to_string()),
            ("src/a".to_string(), "dst/src/a".to_string())
        ]
    );
}

#[test]
fn pressure_drains_the_backlog_before_anything_else() {
    let mut walker = Walker::start();
    assert!(matches!(walker.step(file("src/a", 1)), WalkAction::Next));
    assert!(matches!(
        walker.step(WalkEvent::Entry(Entry::Directory { handle: 7 })),
        WalkAction::Next
    ));
    assert!(matches!(walker.step(file("src/b", 2)), WalkAction::Next));
    assert!(matches!(walker.step(file("src/c", 3)), WalkAction::Next));
    assert_eq!(walker.backlog_len(), 3);
    assert_eq!(walker.queue_len(), 1);

    // The newest file is handed out first.
    match walker.step(locked("src/deep", TOO_MANY_OPEN_FILES)) {
        WalkAction::Copy(found) => {
            assert_eq!(found.path, "src/c");
            assert_eq!(found.size, 3);
        }
        other => panic!("expected a copy, got {:?}", other),
    }
    assert_eq!(walker.phase(), Phase::Draining);
    // Nothing is read while the backlog drains.
    assert!(matches!(walker.step(file("src/x", 9)), WalkAction::Refused));
    assert!(matches!(walker.step(WalkEvent::EndOfDirectory), WalkAction::Refused));
    assert_eq!(walker.backlog_len(), 2);

    match walker.step(WalkEvent::Copied { dest: "dst/src/c".to_string() }) {
        WalkAction::Copy(found) => assert_eq!(found.path, "src/b"),
        other => panic!("expected a copy, got {:?}", other),
    }
    match walker.step(WalkEvent::CopyFailed { error: "no space".to_string() }) {
        WalkAction::Copy(found) => assert_eq!(found.path, "src/a"),
        other => panic!("expected a copy, got {:?}", other),
    }
    // Only after the last outcome does reading resume.
    assert!(matches!(
        walker.step(WalkEvent::Copied { dest: "dst/src/a".to_string() }),
        WalkAction::Next
    ));
    assert_eq!(walker.phase(), Phase::Reading);
    assert_eq!(walker.backlog_len(), 0);
    assert_eq!(walker.queue_len(), 1);

    assert!(matches!(walker.step(WalkEvent::EndOfDirectory), WalkAction::Read(7)));
    assert!(matches!(walker.step(WalkEvent::EndOfDirectory), WalkAction::Done));
    let conclusion = walker.finish();
    assert_eq!(conclusion.total_count, 3);
    assert_eq!(conclusion.total_size.byte, 6);
    assert_eq!(
        conclusion.path_list,
        vec![
            ("src/c".to_string(), "dst/src/c".to_string()),
            ("src/a".to_string(), "dst/src/a".to_string())
        ]
    );
    assert_eq!(
        conclusion.error_list,
        vec![
            "Couldn't read \"src/deep\" because of error: denied. Skipping\n".to_string(),
            "Couldn't copy \"src/b\" because of error: no space. Skipping\n".to_string(),
        ]
    );
    assert_eq!(conclusion.error_count, 2);
}

#[test]
fn pressure_with_an_empty_backlog_just_goes_on() {
    let mut walker = Walker::start();
    assert!(matches!(walker.step(locked("src/deep", TOO_MANY_OPEN_FILES)), WalkAction::Next));
    assert_eq!(walker.phase(), Phase::Reading);
    assert!(matches!(walker.step(WalkEvent::EndOfDirectory), WalkAction::Done));
    assert_eq!(walker.finish().error_count, 1);
}

#[test]
fn files_found_after_a_drain_are_copied_at_the_end() {
    let tree = Node::Dir(vec![
        Node::File("src/a", 1),
        Node::Locked("src/deep", TOO_MANY_OPEN_FILES),
        Node::File("src/b", 2),
        Node::Dir(vec![Node::File("src/d/c", 3)]),
    ]);
    let trace = walk_tree(&tree);
    assert_eq!(trace.copies, vec!["src/a", "src/d/c", "src/b"]);
    assert_eq!(trace.conclusion.total_count, 3);
    assert_eq!(trace.conclusion.total_size.byte, 6);
    assert_eq!(trace.conclusion.path_list.len(), 3);
    assert_eq!(trace.conclusion.error_count, 1);
}

#[test]
fn reports_out_of_turn_are_refused_and_change_nothing() {
    let mut walker = Walker::start();
    assert!(matches!(
        walker.step(WalkEvent::Copied { dest: "x".to_string() }),
        WalkAction::Refused
    ));
    assert!(matches!(
        walker.step(WalkEvent::CopyFailed { error: "x".to_string() }),
        WalkAction::Refused
    ));
    assert_eq!(walker.phase(), Phase::Reading);
    assert!(matches!(walker.step(file("src/a", 1)), WalkAction::Next));
    match walker.step(WalkEvent::EndOfDirectory) {
        WalkAction::Copy(found) => assert_eq!(found.path, "src/a"),
        other => panic!("expected a copy, got {:?}", other),
    }
    assert_eq!(walker.phase(), Phase::Flushing);
    assert!(matches!(walker.step(file("src/b", 1)), WalkAction::Refused));
    assert!(matches!(
        walker.step(WalkEvent::Copied { dest: "dst/src/a".to_string() }),
        WalkAction::Done
    ));
    assert!(matches!(walker.step(WalkEvent::EndOfDirectory), WalkAction::Refused));
    assert!(matches!(walker.step(file("src/b", 1)), WalkAction::Refused));
    let conclusion = walker.finish();
    assert_eq!(conclusion.total_count, 1);
    assert_eq!(conclusion.path_list.len(), 1);
}

#[test]
fn a_file_that_would_overflow_the_size_is_refused() {
    let mut walker = Walker::start();
    assert!(matches!(walker.step(file("src/huge", usize::MAX)), WalkAction::Next));
    assert!(matches!(walker.step(file("src/one", 1)), WalkAction::Refused));
    assert!(matches!(walker.step(file("src/none", 0)), WalkAction::Next));
    assert_eq!(walker.backlog_len(), 2);
}

#[test]
fn failure_lines_read_as_documented() {
    assert_eq!(
        read_failure_line("/a/b", "permission denied"),
        "Couldn't read \"/a/b\" because of error: permission denied. Skipping\n"
    );
    assert_eq!(
        copy_failure_line("/a/b", "no space left"),
        "Couldn't copy \"/a/b\" because of error: no space left. Skipping\n"
    );
}

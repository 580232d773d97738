//! The sequential walk of a directory tree.
//!
//! The walk is a state machine. Its caller owns the directory handles and does
//! the reading and the copying; the machine decides what happens next. The
//! caller feeds it what it saw ([`WalkEvent`]) and carries out what it answers
//! ([`WalkAction`]), until the answer is [`WalkAction::Done`].
//!
//! Directories are read in the order in which they were opened. Files are
//! collected in a backlog and copied when the walk is over, unless opening a
//! directory fails because the process has run out of file descriptors: then
//! the backlog is copied at once, file by file, before anything else is read.

use crate::conclusion::Conclusion;
use crate::size::FileSize;
use std::collections::VecDeque;
use vstd::prelude::*;
use vstd::string::StringExecFns;

verus! {

/// The error number with which opening a directory fails when the process has
/// no file descriptor left.
pub const TOO_MANY_OPEN_FILES: i32 = 24;

/// A regular file that the walk came across.
#[derive(Debug)]
pub struct FoundFile {
    /// The file's path, as text.
    pub path: String,
    /// The file's length in bytes.
    pub size: usize,
}

/// A found file as a mathematical value.
pub struct FileView {
    pub path: Seq<char>,
    pub size: nat,
}

impl View for FoundFile {
    type V = FileView;

    open spec fn view(&self) -> FileView {
        FileView { path: self.path@, size: self.size as nat }
    }
}

impl DeepView for FoundFile {
    type V = FileView;

    open spec fn deep_view(&self) -> FileView {
        self@
    }
}

/// One entry of a directory, as its reader saw it.
#[derive(Debug)]
pub enum Entry {
    /// A regular file.
    File { path: String, size: usize },
    /// A subdirectory that was opened; `handle` is the caller's name for it.
    Directory { handle: u64 },
    /// A subdirectory that could not be opened. `os_error` is the error number
    /// of the operating system, or zero where there is none; `error` is the
    /// failure in words.
    Unreadable { path: String, os_error: i32, error: String },
    /// Anything else. It is passed over.
    Other,
}

/// A directory entry as a mathematical value.
pub enum EntryView {
    File { path: Seq<char>, size: nat },
    Directory { handle: u64 },
    Unreadable { path: Seq<char>, os_error: i32, error: Seq<char> },
    Other,
}

impl View for Entry {
    type V = EntryView;

    open spec fn view(&self) -> EntryView {
        match self {
            Entry::File { path, size } => EntryView::File { path: path@, size: *size as nat },
            Entry::Directory { handle } => EntryView::Directory { handle: *handle },
            Entry::Unreadable { path, os_error, error } => EntryView::Unreadable {
                path: path@,
                os_error: *os_error,
                error: error@,
            },
            Entry::Other => EntryView::Other,
        }
    }
}

impl DeepView for Entry {
    type V = EntryView;

    open spec fn deep_view(&self) -> EntryView {
        self@
    }
}

/// What the caller reports to the walk.
#[derive(Debug)]
pub enum WalkEvent {
    /// The next entry of the directory that is being read.
    Entry(Entry),
    /// The directory that is being read has no further entry.
    EndOfDirectory,
    /// The file handed out for copying now stands at `dest`.
    Copied { dest: String },
    /// The file handed out for copying could not be copied; `error` says why.
    CopyFailed { error: String },
}

/// A report to the walk as a mathematical value.
pub enum WalkEventView {
    Entry(EntryView),
    EndOfDirectory,
    Copied { dest: Seq<char> },
    CopyFailed { error: Seq<char> },
}

impl View for WalkEvent {
    type V = WalkEventView;

    open spec fn view(&self) -> WalkEventView {
        match self {
            WalkEvent::Entry(entry) => WalkEventView::Entry(entry@),
            WalkEvent::EndOfDirectory => WalkEventView::EndOfDirectory,
            WalkEvent::Copied { dest } => WalkEventView::Copied { dest: dest@ },
            WalkEvent::CopyFailed { error } => WalkEventView::CopyFailed { error: error@ },
        }
    }
}

/// What the walk asks of its caller.
#[derive(Debug)]
pub enum WalkAction {
    /// Read the directory with this handle from its first entry.
    Read(u64),
    /// Report the next entry of the directory that is being read.
    Next,
    /// Copy this file and report how it went.
    Copy(FoundFile),
    /// The walk is over.
    Done,
    /// The report does not fit the state of the walk, or a counter would pass
    /// the largest machine word. Nothing has changed.
    Refused,
}

/// A request of the walk as a mathematical value.
pub enum WalkActionView {
    Read(u64),
    Next,
    Copy(FileView),
    Done,
    Refused,
}

impl View for WalkAction {
    type V = WalkActionView;

    open spec fn view(&self) -> WalkActionView {
        match self {
            WalkAction::Read(handle) => WalkActionView::Read(*handle),
            WalkAction::Next => WalkActionView::Next,
            WalkAction::Copy(file) => WalkActionView::Copy(file@),
            WalkAction::Done => WalkActionView::Done,
            WalkAction::Refused => WalkActionView::Refused,
        }
    }
}

/// Where the walk stands.
#[derive(Clone, Copy, Debug, PartialEq, Eq, Structural)]
pub enum Phase {
    /// A directory is being read.
    Reading,
    /// The backlog is being copied because file descriptors ran out; reading
    /// resumes when it is empty.
    Draining,
    /// Every directory has been read and the backlog is being copied.
    Flushing,
    /// The walk is over.
    Done,
}

/// The state of a walk as a mathematical value.
pub struct WalkState {
    pub phase: Phase,
    /// Opened directories that wait to be read, the oldest first.
    pub queue: Seq<u64>,
    /// Found files that wait to be copied, the newest first.
    pub backlog: Seq<FileView>,
    /// The file that was handed out for copying and is not reported on yet.
    pub in_hand: Option<FileView>,
    /// How many files were found.
    pub found: nat,
    /// How many bytes the found files hold.
    pub bytes: nat,
    /// What went wrong, in words, oldest first.
    pub errors: Seq<Seq<char>>,
    /// The files that were copied, source and destination, oldest first.
    pub copied: Seq<(Seq<char>, Seq<char>)>,
}

/// The line that records a directory that could not be opened.
pub open spec fn read_failure(path: Seq<char>, error: Seq<char>) -> Seq<char> {
    "Couldn't read \""@ + path + "\" because of error: "@ + error + ". Skipping\n"@
}

/// The line that records a file that could not be copied.
pub open spec fn copy_failure(path: Seq<char>, error: Seq<char>) -> Seq<char> {
    "Couldn't copy \""@ + path + "\" because of error: "@ + error + ". Skipping\n"@
}

impl WalkState {
    /// The state in which a walk begins: the root directory is being read and
    /// nothing has been found.
    pub open spec fn start() -> WalkState {
        WalkState {
            phase: Phase::Reading,
            queue: Seq::empty(),
            backlog: Seq::empty(),
            in_hand: None,
            found: 0,
            bytes: 0,
            errors: Seq::empty(),
            copied: Seq::empty(),
        }
    }

    /// What follows once the file in hand is dealt with: the next file of the
    /// backlog is handed out; with the backlog empty, reading resumes after a
    /// drain, and the walk ends after the final flush.
    pub open spec fn proceed(self) -> (WalkState, WalkActionView) {
        if self.backlog.len() > 0 {
            (
                WalkState {
                    backlog: self.backlog.skip(1),
                    in_hand: Some(self.backlog[0]),
                    ..self
                },
                WalkActionView::Copy(self.backlog[0]),
            )
        } else if self.phase == Phase::Draining {
            (WalkState { phase: Phase::Reading, in_hand: None, ..self }, WalkActionView::Next)
        } else {
            (WalkState { phase: Phase::Done, in_hand: None, ..self }, WalkActionView::Done)
        }
    }

    /// The walk's answer to an entry of the directory that is being read.
    pub open spec fn on_entry(self, entry: EntryView) -> (WalkState, WalkActionView) {
        match entry {
            EntryView::File { path, size } => {
                if self.found + 1 > usize::MAX || self.bytes + size > usize::MAX {
                    (self, WalkActionView::Refused)
                } else {
                    (
                        WalkState {
                            backlog: seq![FileView { path, size }] + self.backlog,
                            found: self.found + 1,
                            bytes: self.bytes + size,
                            ..self
                        },
                        WalkActionView::Next,
                    )
                }
            },
            EntryView::Directory { handle } => (
                WalkState { queue: self.queue.push(handle), ..self },
                WalkActionView::Next,
            ),
            EntryView::Unreadable { path, os_error, error } => {
                let noted = WalkState {
                    errors: self.errors.push(read_failure(path, error)),
                    ..self
                };
                if os_error == TOO_MANY_OPEN_FILES && self.backlog.len() > 0 {
                    WalkState { phase: Phase::Draining, ..noted }.proceed()
                } else {
                    (noted, WalkActionView::Next)
                }
            },
            EntryView::Other => (self, WalkActionView::Next),
        }
    }

    /// The walk's answer to the end of the directory that is being read: the
    /// oldest waiting directory is read next; when none waits, the backlog is
    /// flushed.
    pub open spec fn on_end_of_directory(self) -> (WalkState, WalkActionView) {
        if self.queue.len() > 0 {
            (WalkState { queue: self.queue.skip(1), ..self }, WalkActionView::Read(self.queue[0]))
        } else {
            WalkState { phase: Phase::Flushing, ..self }.proceed()
        }
    }

    /// The walk's answer to the outcome of a copy.
    pub open spec fn on_outcome(self, event: WalkEventView) -> (WalkState, WalkActionView) {
        match (self.in_hand, event) {
            (Some(file), WalkEventView::Copied { dest }) => WalkState {
                copied: self.copied.push((file.path, dest)),
                ..self
            }.proceed(),
            (Some(file), WalkEventView::CopyFailed { error }) => WalkState {
                errors: self.errors.push(copy_failure(file.path, error)),
                ..self
            }.proceed(),
            _ => (self, WalkActionView::Refused),
        }
    }

    /// The walk's answer to a report: the state that follows and the request
    /// that goes back to the caller.
    ///
    /// Entries and the end of a directory are taken while a directory is being
    /// read, outcomes of a copy while the backlog is being copied. A report at
    /// any other time is refused and changes nothing.
    pub open spec fn step(self, event: WalkEventView) -> (WalkState, WalkActionView) {
        match self.phase {
            Phase::Reading => match event {
                WalkEventView::Entry(entry) => self.on_entry(entry),
                WalkEventView::EndOfDirectory => self.on_end_of_directory(),
                _ => (self, WalkActionView::Refused),
            },
            Phase::Draining | Phase::Flushing => match event {
                WalkEventView::Copied { .. } | WalkEventView::CopyFailed { .. } => self.on_outcome(
                    event,
                ),
                _ => (self, WalkActionView::Refused),
            },
            Phase::Done => (self, WalkActionView::Refused),
        }
    }
}

/// A sequential walk in progress.
#[derive(Debug)]
pub struct Walker {
    phase: Phase,
    queue: VecDeque<u64>,
    backlog: VecDeque<FoundFile>,
    in_hand: Option<FoundFile>,
    found: usize,
    bytes: usize,
    errors: Vec<String>,
    copied: Vec<(String, String)>,
}

impl View for Walker {
    type V = WalkState;

    closed spec fn view(&self) -> WalkState {
        WalkState {
            phase: self.phase,
            queue: self.queue@,
            backlog: self.backlog.deep_view(),
            in_hand: match self.in_hand {
                Some(file) => Some(file@),
                None => None,
            },
            found: self.found as nat,
            bytes: self.bytes as nat,
            errors: self.errors.deep_view(),
            copied: self.copied.deep_view(),
        }
    }
}

/// Writes the line that records a directory that could not be opened.
pub fn read_failure_line(path: &str, error: &str) -> (line: String)
    ensures
        line@ == read_failure(path@, error@),
{
    let mut line = String::from_str("Couldn't read \"");
    line.append(path);
    line.append("\" because of error: ");
    line.append(error);
    line.append(". Skipping\n");
    line
}

/// Writes the line that records a file that could not be copied.
pub fn copy_failure_line(path: &str, error: &str) -> (line: String)
    ensures
        line@ == copy_failure(path@, error@),
{
    let mut line = String::from_str("Couldn't copy \"");
    line.append(path);
    line.append("\" because of error: ");
    line.append(error);
    line.append(". Skipping\n");
    line
}

impl Walker {
    /// Begins a walk. The caller has opened the root directory and reads it
    /// first, reporting its entries one by one.
    pub fn start() -> (walker: Walker)
        ensures
            walker@ == WalkState::start(),
    {
        let walker = Walker {
            phase: Phase::Reading,
            queue: VecDeque::new(),
            backlog: VecDeque::new(),
            in_hand: None,
            found: 0,
            bytes: 0,
            errors: Vec::new(),
            copied: Vec::new(),
        };
        assert(walker@.backlog =~= Seq::empty());
        assert(walker@.errors =~= Seq::empty());
        assert(walker@.copied =~= Seq::empty());
        walker
    }

    /// Where the walk stands.
    pub fn phase(&self) -> (phase: Phase)
        ensures
            phase == self@.phase,
    {
        self.phase
    }

    /// How many found files still wait to be copied.
    pub fn backlog_len(&self) -> (len: usize)
        ensures
            len == self@.backlog.len(),
    {
        self.backlog.len()
    }

    /// How many opened directories still wait to be read.
    pub fn queue_len(&self) -> (len: usize)
        ensures
            len == self@.queue.len(),
    {
        self.queue.len()
    }

    fn proceed(&mut self) -> (action: WalkAction)
        ensures
            (final(self)@, action@) == old(self)@.proceed(),
    {
        match self.backlog.pop_front() {
            Some(file) => {
                let handed = FoundFile { path: file.path.clone(), size: file.size };
                self.in_hand = Some(file);
                proof {
                    assert(self@.backlog =~= old(self)@.backlog.skip(1));
                }
                WalkAction::Copy(handed)
            },
            None => {
                self.in_hand = None;
                if self.phase == Phase::Draining {
                    self.phase = Phase::Reading;
                    WalkAction::Next
                } else {
                    self.phase = Phase::Done;
                    WalkAction::Done
                }
            },
        }
    }

    fn on_entry(&mut self, entry: Entry) -> (action: WalkAction)
        ensures
            (final(self)@, action@) == old(self)@.on_entry(entry@),
    {
        match entry {
            Entry::File { path, size } => {
                if self.found == usize::MAX || size > usize::MAX - self.bytes {
                    return WalkAction::Refused;
                }
                self.found = self.found + 1;
                self.bytes = self.bytes + size;
                self.backlog.push_front(FoundFile { path, size });
                proof {
                    assert(self@.backlog =~= seq![FileView { path: path@, size: size as nat }]
                        + old(self)@.backlog);
                }
                WalkAction::Next
            },
            Entry::Directory { handle } => {
                self.queue.push_back(handle);
                WalkAction::Next
            },
            Entry::Unreadable { path, os_error, error } => {
                let line = read_failure_line(path.as_str(), error.as_str());
                self.errors.push(line);
                proof {
                    assert(self@.errors =~= old(self)@.errors.push(read_failure(path@, error@)));
                }
                if os_error == TOO_MANY_OPEN_FILES && self.backlog.len() > 0 {
                    self.phase = Phase::Draining;
                    self.proceed()
                } else {
                    WalkAction::Next
                }
            },
            Entry::Other => WalkAction::Next,
        }
    }

    fn on_end_of_directory(&mut self) -> (action: WalkAction)
        ensures
            (final(self)@, action@) == old(self)@.on_end_of_directory(),
    {
        match self.queue.pop_front() {
            Some(handle) => {
                proof {
                    assert(self@.queue =~= old(self)@.queue.skip(1));
                }
                WalkAction::Read(handle)
            },
            None => {
                self.phase = Phase::Flushing;
                self.proceed()
            },
        }
    }

    fn on_outcome(&mut self, event: WalkEvent) -> (action: WalkAction)
        requires
            event@ is Copied || event@ is CopyFailed,
        ensures
            (final(self)@, action@) == old(self)@.on_outcome(event@),
    {
        match self.in_hand.take() {
            Some(file) => {
                match event {
                    WalkEvent::Copied { dest } => {
                        self.copied.push((file.path, dest));
                        proof {
                            assert(self@.copied =~= old(self)@.copied.push((file.path@, dest@)));
                        }
                    },
                    WalkEvent::CopyFailed { error } => {
                        let line = copy_failure_line(file.path.as_str(), error.as_str());
                        self.errors.push(line);
                        proof {
                            assert(self@.errors =~= old(self)@.errors.push(
                                copy_failure(file.path@, error@),
                            ));
                        }
                    },
                    _ => {},
                }
                self.proceed()
            },
            None => WalkAction::Refused,
        }
    }

    /// Takes a report and answers with the next request, as
    /// [`WalkState::step`] defines it.
    pub fn step(&mut self, event: WalkEvent) -> (action: WalkAction)
        ensures
            (final(self)@, action@) == old(self)@.step(event@),
    {
        match self.phase {
            Phase::Reading => match event {
                WalkEvent::Entry(entry) => self.on_entry(entry),
                WalkEvent::EndOfDirectory => self.on_end_of_directory(),
                _ => WalkAction::Refused,
            },
            Phase::Draining | Phase::Flushing => match event {
                WalkEvent::Copied { .. } | WalkEvent::CopyFailed { .. } => self.on_outcome(event),
                _ => WalkAction::Refused,
            },
            Phase::Done => WalkAction::Refused,
        }
    }

    /// Closes the walk and hands over its summary, with the units of the total
    /// size computed.
    pub fn finish(self) -> (conclusion: Conclusion)
        ensures
            conclusion@.total_count == self@.found,
            conclusion@.total_bytes == self@.bytes,
            conclusion@.errors == self@.errors,
            conclusion@.paths == self@.copied,
            conclusion.counts_errors(),
            conclusion.total_size.consistent(),
    {
        let count = self.errors.len();
        Conclusion {
            total_count: self.found,
            error_count: count,
            error_list: self.errors,
            total_size: FileSize::from_bytes(self.bytes),
            path_list: self.copied,
        }
    }
}

} // verus!

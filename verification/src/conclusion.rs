//! The summary of a run, and how the partial results of many producers are
//! combined into it.

use crate::size::FileSize;
use vstd::prelude::*;

verus! {

/// What a run has to show for itself: how many files it found, how many bytes
/// they hold, what went wrong, and which files were copied where.
///
/// `error_count` is the length of `error_list`. The units of `total_size` are
/// brought up to date by [`Conclusion::settle`], once all results are in.
#[derive(Clone, Debug)]
pub struct Conclusion {
    pub total_count: usize,
    pub error_count: usize,
    pub error_list: Vec<String>,
    pub total_size: FileSize,
    pub path_list: Vec<(String, String)>,
}

/// One partial result sent by a producer.
#[derive(Debug)]
pub enum ConclusionFields {
    /// So many more files were found.
    TotalCount(usize),
    /// Something failed; the text says what.
    Error(String),
    /// Files of this size were found. Only the byte count is read.
    FileSize(FileSize),
    /// A file was copied from the first path to the second.
    PathCouple((String, String)),
}

/// A partial result as a mathematical value.
pub enum Tally {
    Count(nat),
    Error(Seq<char>),
    Bytes(nat),
    Pair(Seq<char>, Seq<char>),
}

/// A summary as a mathematical value.
pub struct Summary {
    pub total_count: nat,
    pub total_bytes: nat,
    pub errors: Seq<Seq<char>>,
    pub paths: Seq<(Seq<char>, Seq<char>)>,
}

impl View for ConclusionFields {
    type V = Tally;

    open spec fn view(&self) -> Tally {
        match self {
            ConclusionFields::TotalCount(n) => Tally::Count(*n as nat),
            ConclusionFields::Error(text) => Tally::Error(text@),
            ConclusionFields::FileSize(size) => Tally::Bytes(size.byte as nat),
            ConclusionFields::PathCouple(pair) => Tally::Pair(pair.0@, pair.1@),
        }
    }
}

impl DeepView for ConclusionFields {
    type V = Tally;

    open spec fn deep_view(&self) -> Tally {
        self@
    }
}

impl View for Conclusion {
    type V = Summary;

    open spec fn view(&self) -> Summary {
        Summary {
            total_count: self.total_count as nat,
            total_bytes: self.total_size.byte as nat,
            errors: self.error_list.deep_view(),
            paths: self.path_list.deep_view(),
        }
    }
}

impl Tally {
    /// The files this result adds to the count.
    pub open spec fn files(self) -> nat {
        match self {
            Tally::Count(n) => n,
            _ => 0,
        }
    }

    /// The bytes this result adds to the size.
    pub open spec fn bytes(self) -> nat {
        match self {
            Tally::Bytes(n) => n,
            _ => 0,
        }
    }

    /// One if this result reports a failure, else zero.
    pub open spec fn failures(self) -> nat {
        match self {
            Tally::Error(_) => 1,
            _ => 0,
        }
    }

    /// One if this result reports a copied file, else zero.
    pub open spec fn copies(self) -> nat {
        match self {
            Tally::Pair(_, _) => 1,
            _ => 0,
        }
    }
}

impl Summary {
    /// The summary of a run in which nothing has happened yet.
    pub open spec fn empty() -> Summary {
        Summary { total_count: 0, total_bytes: 0, errors: Seq::empty(), paths: Seq::empty() }
    }

    /// Whether the counters still fit a machine word once `tally` is added.
    pub open spec fn fits(self, tally: Tally) -> bool {
        &&& self.total_count + tally.files() <= usize::MAX
        &&& self.total_bytes + tally.bytes() <= usize::MAX
    }

    /// The summary with one more partial result taken in.
    pub open spec fn absorb(self, tally: Tally) -> Summary {
        match tally {
            Tally::Count(n) => Summary { total_count: self.total_count + n, ..self },
            Tally::Bytes(n) => Summary { total_bytes: self.total_bytes + n, ..self },
            Tally::Error(text) => Summary { errors: self.errors.push(text), ..self },
            Tally::Pair(from, to) => Summary { paths: self.paths.push((from, to)), ..self },
        }
    }

    /// The summary with a whole stream of partial results taken in, in order.
    pub open spec fn absorb_all(self, tallies: Seq<Tally>) -> Summary
        decreases tallies.len(),
    {
        if tallies.len() == 0 {
            self
        } else {
            self.absorb_all(tallies.drop_last()).absorb(tallies.last())
        }
    }
}

/// The files that a stream of partial results adds up to.
pub open spec fn files_in(tallies: Seq<Tally>) -> nat
    decreases tallies.len(),
{
    if tallies.len() == 0 {
        0
    } else {
        files_in(tallies.drop_last()) + tallies.last().files()
    }
}

/// The bytes that a stream of partial results adds up to.
pub open spec fn bytes_in(tallies: Seq<Tally>) -> nat
    decreases tallies.len(),
{
    if tallies.len() == 0 {
        0
    } else {
        bytes_in(tallies.drop_last()) + tallies.last().bytes()
    }
}

/// The failures that a stream of partial results reports, in order.
pub open spec fn errors_in(tallies: Seq<Tally>) -> Seq<Seq<char>>
    decreases tallies.len(),
{
    if tallies.len() == 0 {
        Seq::empty()
    } else {
        match tallies.last() {
            Tally::Error(text) => errors_in(tallies.drop_last()).push(text),
            _ => errors_in(tallies.drop_last()),
        }
    }
}

/// The copied files that a stream of partial results reports, in order.
pub open spec fn pairs_in(tallies: Seq<Tally>) -> Seq<(Seq<char>, Seq<char>)>
    decreases tallies.len(),
{
    if tallies.len() == 0 {
        Seq::empty()
    } else {
        match tallies.last() {
            Tally::Pair(from, to) => pairs_in(tallies.drop_last()).push((from, to)),
            _ => pairs_in(tallies.drop_last()),
        }
    }
}

/// How many failures a stream of partial results reports.
pub open spec fn failures_in(tallies: Seq<Tally>) -> nat
    decreases tallies.len(),
{
    if tallies.len() == 0 {
        0
    } else {
        failures_in(tallies.drop_last()) + tallies.last().failures()
    }
}

/// How many copied files a stream of partial results reports.
pub open spec fn copies_in(tallies: Seq<Tally>) -> nat
    decreases tallies.len(),
{
    if tallies.len() == 0 {
        0
    } else {
        copies_in(tallies.drop_last()) + tallies.last().copies()
    }
}

impl Conclusion {
    /// `error_count` is the number of entries of `error_list`.
    pub open spec fn counts_errors(&self) -> bool {
        self.error_count == self.error_list@.len()
    }

    /// The summary of a run in which nothing has happened yet.
    pub fn new() -> (conclusion: Conclusion)
        ensures
            conclusion@ == Summary::empty(),
            conclusion.counts_errors(),
            conclusion.total_size.consistent(),
    {
        let conclusion = Conclusion {
            total_count: 0,
            error_count: 0,
            error_list: Vec::new(),
            total_size: FileSize::new(),
            path_list: Vec::new(),
        };
        assert(conclusion@.errors =~= Seq::empty());
        assert(conclusion@.paths =~= Seq::empty());
        conclusion
    }

    /// Takes one partial result into the summary.
    ///
    /// A result that would carry a counter past the largest machine word is
    /// not taken: the summary stays as it was and the answer is `false`.
    /// The units of `total_size` are left alone; see [`Conclusion::settle`].
    pub fn absorb(&mut self, event: ConclusionFields) -> (taken: bool)
        ensures
            taken == old(self)@.fits(event@),
            taken ==> final(self)@ == old(self)@.absorb(event@),
            !taken ==> *final(self) == *old(self),
            final(self).total_size.kb == old(self).total_size.kb,
            final(self).total_size.mb == old(self).total_size.mb,
            final(self).total_size.gb == old(self).total_size.gb,
            old(self).counts_errors() ==> final(self).counts_errors(),
    {
        match event {
            ConclusionFields::TotalCount(n) => {
                if n > usize::MAX - self.total_count {
                    return false;
                }
                self.total_count = self.total_count + n;
            },
            ConclusionFields::FileSize(size) => {
                if size.byte > usize::MAX - self.total_size.byte {
                    return false;
                }
                self.total_size.byte = self.total_size.byte + size.byte;
            },
            ConclusionFields::Error(text) => {
                self.error_list.push(text);
                self.error_count = self.error_list.len();
                assert(self@.errors =~= old(self)@.errors.push(text@));
            },
            ConclusionFields::PathCouple(pair) => {
                self.path_list.push(pair);
                assert(self@.paths =~= old(self)@.paths.push((pair.0@, pair.1@)));
            },
        }
        true
    }

    /// Takes a stream of partial results into the summary, in order, and then
    /// brings the units of `total_size` up to date, once.
    ///
    /// The answer is how many results were taken. It falls short of the
    /// stream's length only when a counter would pass the largest machine
    /// word: the result at that position and all after it are left out.
    pub fn absorb_all(&mut self, events: Vec<ConclusionFields>) -> (taken: usize)
        ensures
            taken <= events@.len(),
            final(self)@ == old(self)@.absorb_all(events.deep_view().take(taken as int)),
            taken < events@.len() ==> !final(self)@.fits(events@[taken as int]@),
            old(self).counts_errors() ==> final(self).counts_errors(),
            final(self).total_size.consistent(),
    {
        let ghost stream = events.deep_view();
        let ghost items = events@;
        let mut taken: usize = 0;
        let mut open = true;
        let count = events.len();
        proof {
            assert(stream.take(0) =~= Seq::empty());
        }
        for event in it: events
            invariant
                it.seq() == items,
                items.len() == count,
                old(self).counts_errors() ==> self.counts_errors(),
                stream == Seq::new(items.len(), |i: int| items[i]@),
                taken <= it.index(),
                open ==> taken == it.index(),
                !open ==> taken < stream.len() && !self@.fits(stream[taken as int]),
                self@ == old(self)@.absorb_all(stream.take(taken as int)),
        {
            if open {
                proof {
                    assert(stream.take(taken + 1).drop_last() =~= stream.take(taken as int));
                    assert(stream.take(taken + 1).last() == event@);
                }
                if self.absorb(event) {
                    taken = taken + 1;
                } else {
                    open = false;
                }
            }
        }
        self.total_size.update();
        taken
    }

    /// Brings the units of `total_size` up to date. Call it when all partial
    /// results of a phase are in, so that no reader sees units that belong to
    /// a partial sum.
    pub fn settle(&mut self)
        ensures
            final(self)@ == old(self)@,
            final(self).total_size.consistent(),
            final(self).total_count == old(self).total_count,
            final(self).error_count == old(self).error_count,
            final(self).error_list == old(self).error_list,
            final(self).path_list == old(self).path_list,
            final(self).total_size.byte == old(self).total_size.byte,
    {
        self.total_size.update();
    }
}

/// Nothing is lost and nothing is counted twice: after a stream of partial
/// results has been taken in, the counters have grown by exactly what the
/// stream adds up to, and the two lists have grown by exactly the failures and
/// the copied files that the stream reports, in the order in which they came.
pub proof fn lemma_absorb_all_adds_up(start: Summary, tallies: Seq<Tally>)
    ensures
        start.absorb_all(tallies).total_count == start.total_count + files_in(tallies),
        start.absorb_all(tallies).total_bytes == start.total_bytes + bytes_in(tallies),
        start.absorb_all(tallies).errors == start.errors + errors_in(tallies),
        start.absorb_all(tallies).paths == start.paths + pairs_in(tallies),
    decreases tallies.len(),
{
    if tallies.len() > 0 {
        lemma_absorb_all_adds_up(start, tallies.drop_last());
        let before = start.absorb_all(tallies.drop_last());
        assert(before.errors.push(tallies.last()->Error_0) =~= start.errors + errors_in(
            tallies.drop_last(),
        ).push(tallies.last()->Error_0));
        assert(before.paths.push((tallies.last()->Pair_0, tallies.last()->Pair_1)) =~= start.paths
            + pairs_in(tallies.drop_last()).push((tallies.last()->Pair_0, tallies.last()->Pair_1)));
    } else {
        assert(start.errors + errors_in(tallies) =~= start.errors);
        assert(start.paths + pairs_in(tallies) =~= start.paths);
    }
}

/// The two lists of a stream are as long as the stream's counts of failures
/// and of copied files.
pub proof fn lemma_lists_match_counts(tallies: Seq<Tally>)
    ensures
        errors_in(tallies).len() == failures_in(tallies),
        pairs_in(tallies).len() == copies_in(tallies),
    decreases tallies.len(),
{
    if tallies.len() > 0 {
        lemma_lists_match_counts(tallies.drop_last());
    }
}

proof fn lemma_sums_without(tallies: Seq<Tally>, at: int)
    requires
        0 <= at < tallies.len(),
    ensures
        files_in(tallies) == files_in(tallies.remove(at)) + tallies[at].files(),
        bytes_in(tallies) == bytes_in(tallies.remove(at)) + tallies[at].bytes(),
        failures_in(tallies) == failures_in(tallies.remove(at)) + tallies[at].failures(),
        copies_in(tallies) == copies_in(tallies.remove(at)) + tallies[at].copies(),
    decreases tallies.len(),
{
    if at == tallies.len() - 1 {
        assert(tallies.remove(at) =~= tallies.drop_last());
    } else {
        lemma_sums_without(tallies.drop_last(), at);
        assert(tallies.remove(at).drop_last() =~= tallies.drop_last().remove(at));
        assert(tallies.remove(at).last() == tallies.last());
    }
}

/// The order in which partial results arrive does not matter to the counts:
/// two streams that hold the same results, each as often as the other, add up
/// to the same number of files, of bytes, of failures and of copied files.
pub proof fn lemma_order_is_immaterial(left: Seq<Tally>, right: Seq<Tally>)
    requires
        left.to_multiset() == right.to_multiset(),
    ensures
        files_in(left) == files_in(right),
        bytes_in(left) == bytes_in(right),
        failures_in(left) == failures_in(right),
        copies_in(left) == copies_in(right),
    decreases left.len(),
{
    broadcast use vstd::seq_lib::group_to_multiset_ensures;

    left.to_multiset_ensures();
    right.to_multiset_ensures();
    if left.len() == 0 {
        assert(right.to_multiset().len() == 0);
        assert(right.len() == 0);
    } else {
        let x = left.last();
        assert(left =~= left.drop_last().push(x));
        assert(left.to_multiset() =~= left.drop_last().to_multiset().insert(x));
        assert(right.to_multiset().count(x) > 0);
        assert(right.contains(x));
        let at = choose|at: int| 0 <= at < right.len() && right[at] == x;
        assert(right.remove(at).to_multiset() =~= right.to_multiset().remove(x));
        assert(left.drop_last().to_multiset() =~= left.to_multiset().remove(x));
        lemma_order_is_immaterial(left.drop_last(), right.remove(at));
        lemma_sums_without(right, at);
    }
}

} // verus!

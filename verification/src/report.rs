//! The account of a run: how many items were dispatched, and the outcome of
//! each one that has finished.

use vstd::prelude::*;
use crate::fetch::FetchResult;

verus! {

/// The number of `Saved` among some outcomes.
pub open spec fn saved_among(results: Seq<FetchResult>) -> nat
    decreases results.len(),
{
    if results.len() == 0 {
        0
    } else {
        saved_among(results.drop_last()) + (if results.last() == FetchResult::Saved {
            1nat
        } else {
            0nat
        })
    }
}

/// The outcomes of a run, gathered one by one. The progress of the run is
/// the number of outcomes gathered: each dispatched item adds one outcome and
/// moves the progress by one, whatever its outcome is.
#[derive(Debug)]
pub struct RunReport {
    dispatched: usize,
    results: Vec<FetchResult>,
}

impl RunReport {
    /// The number of items that were dispatched.
    pub closed spec fn dispatched(&self) -> nat {
        self.dispatched as nat
    }

    /// The outcomes gathered so far, in the order in which they came in.
    pub closed spec fn outcomes(&self) -> Seq<FetchResult> {
        self.results@
    }

    /// How far the run has come: the number of items that have finished.
    pub open spec fn progress(&self) -> nat {
        self.outcomes().len()
    }

    /// No more outcomes than dispatched items.
    pub open spec fn valid(&self) -> bool {
        self.progress() <= self.dispatched()
    }

    /// Every dispatched item has its outcome.
    pub open spec fn complete(&self) -> bool {
        self.progress() == self.dispatched()
    }

    /// The report of a run that has dispatched `dispatched` items, none of
    /// which has finished.
    pub fn start(dispatched: usize) -> (report: RunReport)
        ensures
            report.valid(),
            report.dispatched() == dispatched,
            report.outcomes() == Seq::<FetchResult>::empty(),
    {
        RunReport { dispatched, results: Vec::new() }
    }

    /// Takes in the outcome of one more item and says whether it did: a
    /// report that is complete takes no more and stays as it is.
    pub fn record(&mut self, result: FetchResult) -> (taken: bool)
        requires
            old(self).valid(),
        ensures
            final(self).valid(),
            final(self).dispatched() == old(self).dispatched(),
            taken == !old(self).complete(),
            taken ==> final(self).outcomes() == old(self).outcomes().push(result)
                && final(self).progress() == old(self).progress() + 1,
            !taken ==> final(self).outcomes() == old(self).outcomes(),
    {
        if self.results.len() < self.dispatched {
            self.results.push(result);
            true
        } else {
            false
        }
    }

    /// The number of items that were dispatched.
    pub fn total(&self) -> (n: usize)
        ensures
            n == self.dispatched(),
    {
        self.dispatched
    }

    /// The number of items that have finished.
    pub fn position(&self) -> (n: usize)
        ensures
            n == self.progress(),
    {
        self.results.len()
    }

    /// Whether every dispatched item has finished.
    pub fn is_complete(&self) -> (done: bool)
        requires
            self.valid(),
        ensures
            done == self.complete(),
    {
        self.results.len() == self.dispatched
    }

    /// The outcomes gathered so far.
    pub fn results(&self) -> (results: &Vec<FetchResult>)
        ensures
            results@ == self.outcomes(),
    {
        &self.results
    }

    /// The number of items whose image was saved.
    pub fn saved_count(&self) -> (n: usize)
        ensures
            n == saved_among(self.outcomes()),
    {
        let mut n: usize = 0;
        let mut i: usize = 0;
        assert(self.results@.take(0) =~= Seq::<FetchResult>::empty());
        while i < self.results.len()
            invariant
                i <= self.results@.len(),
                n <= i,
                n == saved_among(self.results@.take(i as int)),
            decreases self.results@.len() - i,
        {
            proof {
                let next = self.results@.take(i + 1);
                assert(next.drop_last() =~= self.results@.take(i as int));
                assert(next.last() == self.results@[i as int]);
            }
            if self.results[i].is_saved() {
                n = n + 1;
            }
            i = i + 1;
        }
        assert(self.results@.take(i as int) =~= self.results@);
        n
    }

    /// Whether the run is complete and every item was saved.
    pub fn all_saved(&self) -> (ok: bool)
        requires
            self.valid(),
        ensures
            ok == (self.complete() && forall|i: int|
                0 <= i < self.outcomes().len() ==> (#[trigger] self.outcomes()[i])
                    == FetchResult::Saved),
    {
        if !self.is_complete() {
            return false;
        }
        let mut i: usize = 0;
        while i < self.results.len()
            invariant
                i <= self.results@.len(),
                forall|j: int| 0 <= j < i ==> (#[trigger] self.results@[j]) == FetchResult::Saved,
            decreases self.results@.len() - i,
        {
            if !self.results[i].is_saved() {
                return false;
            }
            i = i + 1;
        }
        true
    }
}

/// Gathering the outcomes of all dispatched items one by one completes the
/// report: it then holds exactly one outcome for each item, in the order in
/// which they came in, and its progress is the number of items.
pub fn gather(results: &Vec<FetchResult>) -> (report: RunReport)
    ensures
        report.valid(),
        report.complete(),
        report.dispatched() == results@.len(),
        report.progress() == results@.len(),
        report.outcomes() == results@,
{
    let mut report = RunReport::start(results.len());
    let mut i: usize = 0;
    while i < results.len()
        invariant
            i <= results@.len(),
            report.valid(),
            report.dispatched() == results@.len(),
            report.outcomes() == results@.take(i as int),
        decreases results@.len() - i,
    {
        let taken = report.record(results[i]);
        assert(taken);
        assert(results@.take(i as int).push(results@[i as int]) =~= results@.take(i + 1));
        i = i + 1;
    }
    assert(results@.take(i as int) =~= results@);
    report
}

} // verus!

//! The decisions of a fetch run: tallying outcomes and cutting records into batches.

use vstd::prelude::*;
use crate::etherscan::FetchError;
use crate::models::ContractData;

verus! {

/// The records fetched successfully, in order; a failed fetch is `None`.
pub open spec fn successes(outcomes: Seq<Option<ContractData>>) -> Seq<ContractData>
    decreases outcomes.len(),
{
    if outcomes.len() == 0 {
        Seq::empty()
    } else {
        let pre = successes(outcomes.drop_last());
        match outcomes.last() {
            Some(c) => pre.push(c),
            None => pre,
        }
    }
}

/// How many fetches failed.
pub open spec fn failures(outcomes: Seq<Option<ContractData>>) -> nat
    decreases outcomes.len(),
{
    if outcomes.len() == 0 {
        0
    } else {
        failures(outcomes.drop_last()) + if outcomes.last() is None {
            1nat
        } else {
            0nat
        }
    }
}

/// The state of a run over an address list: counts so far, and the records
/// that wait to be handed to a sink.
pub struct FetchRun {
    pub pending: Vec<ContractData>,
    pub batch_size: usize,
    pub attempted: usize,
    pub succeeded: usize,
    pub failed: usize,
    pub flushed: usize,
    pub imported: usize,
    /// Every fetch outcome so far, in order.
    pub outcomes: Ghost<Seq<Option<ContractData>>>,
    /// The records already handed out for sinking, in order.
    pub handed: Ghost<Seq<ContractData>>,
}

impl FetchRun {
    pub open spec fn wf(&self) -> bool {
        &&& self.attempted == self.outcomes@.len()
        &&& self.failed == failures(self.outcomes@)
        &&& self.succeeded == successes(self.outcomes@).len()
        &&& self.attempted == self.succeeded + self.failed
        &&& self.handed@ + self.pending@ == successes(self.outcomes@)
        &&& self.flushed == self.handed@.len()
        &&& self.imported <= self.flushed
    }

    /// A run that hands records out in batches of `batch_size`.
    pub fn new(batch_size: usize) -> (r: FetchRun)
        ensures
            r.wf(),
            r.batch_size == batch_size,
            r.outcomes@ == Seq::<Option<ContractData>>::empty(),
            r.pending@.len() == 0,
            r.attempted == 0 && r.imported == 0,
    {
        FetchRun {
            pending: Vec::new(),
            batch_size,
            attempted: 0,
            succeeded: 0,
            failed: 0,
            flushed: 0,
            imported: 0,
            outcomes: Ghost(Seq::empty()),
            handed: Ghost(Seq::empty()),
        }
    }

    /// Takes the outcome of one fetch. A record joins the pending batch; when
    /// the batch reaches the batch size it is handed back to be sunk. A failure
    /// is counted and the run goes on.
    pub fn record(&mut self, outcome: Result<ContractData, FetchError>) -> (flush: Option<
        Vec<ContractData>,
    >)
        requires
            old(self).wf(),
            old(self).attempted < usize::MAX,
        ensures
            final(self).wf(),
            final(self).batch_size == old(self).batch_size,
            final(self).imported == old(self).imported,
            final(self).attempted == old(self).attempted + 1,
            match outcome {
                Ok(c) => {
                    &&& final(self).outcomes@ == old(self).outcomes@.push(Some(c))
                    &&& final(self).succeeded == old(self).succeeded + 1
                    &&& final(self).failed == old(self).failed
                    &&& if old(self).pending@.len() + 1 >= old(self).batch_size {
                        &&& flush matches Some(b) && b@ == old(self).pending@.push(c)
                        &&& final(self).pending@.len() == 0
                    } else {
                        &&& flush is None
                        &&& final(self).pending@ == old(self).pending@.push(c)
                    }
                },
                Err(_) => {
                    &&& final(self).outcomes@ == old(self).outcomes@.push(None)
                    &&& final(self).succeeded == old(self).succeeded
                    &&& final(self).failed == old(self).failed + 1
                    &&& flush is None
                    &&& final(self).pending@ == old(self).pending@
                },
            },
    {
        let ghost before = self.outcomes@;
        match outcome {
            Ok(c) => {
                let ghost cc = c;
                self.outcomes = Ghost(before.push(Some(cc)));
                assert(self.outcomes@.drop_last() =~= before);
                self.pending.push(c);
                self.attempted = self.attempted + 1;
                self.succeeded = self.succeeded + 1;
                if self.pending.len() >= self.batch_size {
                    let mut batch: Vec<ContractData> = Vec::new();
                    std::mem::swap(&mut self.pending, &mut batch);
                    self.handed = Ghost(self.handed@ + batch@);
                    assert(self.handed@ + self.pending@ =~= self.handed@);
                    assert(self.handed@ == successes(self.outcomes@));
                    self.flushed = self.flushed + batch.len();
                    Some(batch)
                } else {
                    assert(self.handed@ + self.pending@ =~= (self.handed@ + old(self).pending@).push(cc));
                    None
                }
            },
            Err(_) => {
                self.outcomes = Ghost(before.push(None));
                assert(self.outcomes@.drop_last() =~= before);
                self.attempted = self.attempted + 1;
                self.failed = self.failed + 1;
                None
            },
        }
    }

    /// Ends the run: hands back what still waits, if anything does. Afterwards
    /// every successful record has been handed out exactly once, in order.
    pub fn finish(&mut self) -> (rest: Option<Vec<ContractData>>)
        requires
            old(self).wf(),
        ensures
            final(self).wf(),
            final(self).outcomes@ == old(self).outcomes@,
            final(self).attempted == old(self).attempted,
            final(self).succeeded == old(self).succeeded,
            final(self).failed == old(self).failed,
            final(self).imported == old(self).imported,
            final(self).pending@.len() == 0,
            final(self).handed@ == successes(final(self).outcomes@),
            old(self).pending@.len() == 0 ==> rest is None,
            old(self).pending@.len() > 0 ==> (rest matches Some(b) && b@ == old(self).pending@),
    {
        if self.pending.len() == 0 {
            assert(self.handed@ + self.pending@ =~= self.handed@);
            return None;
        }
        let mut batch: Vec<ContractData> = Vec::new();
        std::mem::swap(&mut self.pending, &mut batch);
        self.handed = Ghost(self.handed@ + batch@);
        assert(self.handed@ + self.pending@ =~= self.handed@);
        self.flushed = self.flushed + batch.len();
        Some(batch)
    }

    /// Counts `n` records of a handed-out batch as stored.
    pub fn record_imported(&mut self, n: usize)
        requires
            old(self).wf(),
            old(self).imported + n <= old(self).flushed,
        ensures
            final(self).wf(),
            final(self).imported == old(self).imported + n,
            final(self).outcomes@ == old(self).outcomes@,
            final(self).handed@ == old(self).handed@,
            final(self).pending@ == old(self).pending@,
            final(self).attempted == old(self).attempted,
            final(self).succeeded == old(self).succeeded,
            final(self).failed == old(self).failed,
            final(self).flushed == old(self).flushed,
            final(self).batch_size == old(self).batch_size,
    {
        self.imported = self.imported + n;
    }
}

} // verus!

//! The deletion orchestrator's bookkeeping. A `DeletionBatch` walks the
//! approved names in order and records one outcome per branch; a failure on
//! one branch never removes the remaining branches from the batch. The rule
//! that guards optional remote deletion is here too.
use vstd::prelude::*;
use crate::bytes::{copy_bytes, views};

verus! {

/// The outcome of one branch's deletion attempt.
#[derive(Debug)]
pub enum DeletionOutcome {
    Deleted,
    /// The underlying error text, reported with the branch name.
    Failed(Vec<u8>),
    /// Nothing was attempted (a missing or unsynchronized remote branch).
    Skipped,
}

/// One branch's name together with its recorded outcome.
#[derive(Debug)]
pub struct BranchResult {
    pub name: Vec<u8>,
    pub outcome: DeletionOutcome,
}

/// The approved deletions and, per branch, the outcome recorded so far.
/// Outcomes are independent: recording any outcome — Failed included —
/// only advances the cursor, so the remaining branches are still processed.
pub struct DeletionBatch {
    approved: Vec<Vec<u8>>,
    cursor: usize,
    results: Vec<BranchResult>,
}

impl DeletionBatch {
    /// The approved branch names, in processing order.
    pub closed spec fn approved_names(self) -> Seq<Seq<u8>> {
        views(self.approved@)
    }

    /// How many branches have been processed.
    pub closed spec fn progress(self) -> int {
        self.cursor as int
    }

    /// The results recorded so far, one per processed branch.
    pub closed spec fn recorded(self) -> Seq<BranchResult> {
        self.results@
    }

    /// The batch's invariant: one recorded result per processed branch, in
    /// the approved order and under the approved name.
    pub closed spec fn inv(self) -> bool {
        &&& self.cursor <= self.approved.len()
        &&& self.results.len() == self.cursor
        &&& forall|i: int|
            0 <= i < self.results@.len() ==> #[trigger] self.results@[i].name@
                == self.approved@[i]@
    }

    /// A fresh batch over the approved names, nothing processed yet.
    pub fn new(approved: Vec<Vec<u8>>) -> (b: DeletionBatch)
        ensures
            b.inv(),
            b.approved_names() == views(approved@),
            b.progress() == 0,
            b.recorded() == Seq::<BranchResult>::empty(),
    {
        let b = DeletionBatch { approved, cursor: 0, results: Vec::new() };
        proof {
            assert(b.recorded() =~= Seq::<BranchResult>::empty());
        }
        b
    }

    /// The next branch still to be processed, if any.
    pub fn next_pending(&self) -> (r: Option<Vec<u8>>)
        requires
            self.inv(),
        ensures
            match r {
                Some(n) => self.progress() < self.approved_names().len() && n@
                    == self.approved_names()[self.progress()],
                None => self.progress() == self.approved_names().len(),
            },
    {
        if self.cursor < self.approved.len() {
            Some(copy_bytes(&self.approved[self.cursor]))
        } else {
            None
        }
    }

    /// Record the outcome of the attempt on the current branch and move to
    /// the next one. Whatever the outcome, exactly one result is appended
    /// and every later branch stays pending.
    pub fn record(&mut self, outcome: DeletionOutcome)
        requires
            old(self).inv(),
            old(self).progress() < old(self).approved_names().len(),
        ensures
            final(self).inv(),
            final(self).approved_names() == old(self).approved_names(),
            final(self).progress() == old(self).progress() + 1,
            final(self).recorded().drop_last() == old(self).recorded(),
            final(self).recorded().len() == old(self).recorded().len() + 1,
            final(self).recorded().last().name@ == old(self).approved_names()[old(
                self,
            ).progress()],
            final(self).recorded().last().outcome == outcome,
    {
        let name = copy_bytes(&self.approved[self.cursor]);
        let ghost out = outcome;
        self.results.push(BranchResult { name, outcome });
        self.cursor = self.cursor + 1;
        proof {
            assert(self.recorded().drop_last() =~= old(self).recorded());
            assert(self.recorded().last().outcome == out);
        }
    }

    /// Whether every approved branch has been processed.
    pub fn is_done(&self) -> (r: bool)
        requires
            self.inv(),
        ensures
            r == (self.progress() == self.approved_names().len()),
    {
        self.cursor == self.approved.len()
    }

    /// The recorded results, one per processed branch.
    pub fn results(&self) -> (r: &Vec<BranchResult>)
        requires
            self.inv(),
        ensures
            r@ == self.recorded(),
    {
        &self.results
    }

    /// Every branch of the batch is processed exactly once, in order,
    /// whatever outcomes were recorded: the report pairs each processed
    /// approved name with one outcome.
    pub proof fn lemma_report_names(self)
        requires
            self.inv(),
        ensures
            self.recorded().len() == self.progress(),
            forall|i: int|
                0 <= i < self.recorded().len() ==> #[trigger] self.recorded()[i].name@
                    == self.approved_names()[i],
    {
    }
}

/// Rule for deleting a branch on the remote: allowed only when the remote
/// branch exists (its ref resolved to a commit) and that commit equals the
/// synchronization evidence the caller holds. The caller passes the local
/// branch's own tip commit as evidence, so a remote branch that moved past
/// the local one is left alone; if either ref is missing the branch is
/// silently skipped, never an error.
pub fn remote_deletion_allowed(remote_rev: &Option<Vec<u8>>, local_rev: &Option<Vec<u8>>) -> (r:
    bool)
    ensures
        r == (remote_rev matches Some(a) && local_rev matches Some(b) && a@ == b@),
{
    match (remote_rev, local_rev) {
        (Some(a), Some(b)) => crate::bytes::bytes_eq(a, b),
        _ => false,
    }
}

} // verus!

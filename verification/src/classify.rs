//! Merge-status classification: a branch is fully merged into main iff a
//! simulated merge of the branch into main succeeds and produces exactly
//! main's current tree (this also catches squash merges, where no ancestry
//! links the branch to main but the net diff is empty).
use vstd::prelude::*;
use crate::bytes::bytes_eq;
use crate::lines::strip_cr;

verus! {

/// Outcome of simulating a merge of a branch into main, as reported by the
/// version-control layer: a conflict, or the content id of the merged tree.
#[derive(Debug)]
pub enum MergeOutcome {
    Conflict,
    Merged(Vec<u8>),
}

/// How a branch stands with respect to main. Conflicting simulations
/// classify conservatively as NotMerged; a tagged variant (not a boolean)
/// leaves room for further states.
#[derive(Debug, Clone, Copy, PartialEq, Eq, Structural)]
pub enum MergeVerdict {
    FullyMerged,
    NotMerged,
}

/// Classify one branch from its merge-simulation outcome and main's current
/// tree id: FullyMerged iff the simulation succeeded and its tree is
/// identical to main's; a conflict is never an error, only NotMerged.
pub fn classify(outcome: &MergeOutcome, main_tree: &Vec<u8>) -> (v: MergeVerdict)
    ensures
        v == MergeVerdict::FullyMerged <==> (outcome matches MergeOutcome::Merged(t)
            && t@ == main_tree@),
        outcome matches MergeOutcome::Conflict ==> v == MergeVerdict::NotMerged,
{
    match outcome {
        MergeOutcome::Conflict => MergeVerdict::NotMerged,
        MergeOutcome::Merged(t) => {
            if bytes_eq(t, main_tree) {
                MergeVerdict::FullyMerged
            } else {
                MergeVerdict::NotMerged
            }
        },
    }
}

/// The bytes of the tag that opens a commit object's first line: "tree ".
pub open spec fn tree_tag() -> Seq<u8> {
    seq![116u8, 114u8, 101u8, 101u8, 32u8]
}

/// `s` with every leading "tree " tag removed.
pub open spec fn strip_tree_tag(s: Seq<u8>) -> Seq<u8>
    decreases s.len(),
{
    if s.len() >= 5 && s.subrange(0, 5) == tree_tag() {
        strip_tree_tag(s.skip(5))
    } else {
        s
    }
}

/// The first line of a byte document (empty if the document is empty).
pub open spec fn first_line(s: Seq<u8>) -> Seq<u8>
    decreases s.len(),
{
    if s.len() == 0 || s[0] == 10 {
        Seq::empty()
    } else {
        seq![s[0]] + first_line(s.skip(1))
    }
}

proof fn lemma_first_line_take(s: Seq<u8>, i: int)
    requires
        0 <= i <= s.len(),
        forall|j: int| 0 <= j < i ==> s[j] != 10,
        i == s.len() || s[i] == 10,
    ensures
        first_line(s) == s.take(i),
    decreases i,
{
    if i == 0 {
        assert(s.take(0) =~= Seq::<u8>::empty());
    } else {
        let t = s.skip(1);
        assert(forall|j: int| 0 <= j < i - 1 ==> t[j] == s[j + 1] && s[j + 1] != 10);
        lemma_first_line_take(t, i - 1);
        assert(seq![s[0]] + t.take(i - 1) =~= s.take(i));
    }
}

/// Main's tree id, extracted from the listing of main's commit object: the
/// first line is "tree <id>"; the line is taken up to a trailing carriage
/// return and stripped of every leading "tree " tag.
pub fn main_tree_id(listing: &Vec<u8>) -> (r: Vec<u8>)
    ensures
        r@ == strip_tree_tag(strip_cr(first_line(listing@))),
{
    let mut end: usize = 0;
    while end < listing.len() && listing[end] != 10
        invariant
            end <= listing@.len(),
            forall|j: int| 0 <= j < end ==> listing@[j] != 10,
        decreases listing@.len() - end,
    {
        end += 1;
    }
    proof {
        lemma_first_line_take(listing@, end as int);
        assert(listing@.take(end as int) =~= listing@.subrange(0, end as int));
    }
    let line = crate::bytes::subrange_vec(listing, 0, end);
    let mut r = crate::lines::strip_cr_vec(&line);
    while r.len() >= 5 && r[0] == 116 && r[1] == 114 && r[2] == 101 && r[3] == 101 && r[4] == 32
        invariant
            strip_tree_tag(r@) == strip_tree_tag(strip_cr(first_line(listing@))),
        decreases r@.len(),
    {
        proof {
            assert(r@.subrange(0, 5) =~= tree_tag());
        }
        let next = crate::bytes::subrange_vec(&r, 5, r.len());
        proof {
            assert(r@.subrange(5, r@.len() as int) =~= r@.skip(5));
        }
        r = next;
    }
    proof {
        if r@.len() >= 5 && r@.subrange(0, 5) == tree_tag() {
            assert(r@[0] == 116 && r@[1] == 114 && r@[2] == 101 && r@[3] == 101 && r@[4] == 32);
        }
    }
    r
}

} // verus!

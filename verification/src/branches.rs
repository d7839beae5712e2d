//! Branch enumeration: from the listed local branches, the candidates for
//! classification are all branches except main and the currently checked-out
//! branch (which are never candidates for deletion).
use vstd::prelude::*;
use crate::bytes::{bytes_eq, copy_bytes, views};

verus! {

/// The candidate names among `ns`: all but `main` and `cur`, in order.
pub open spec fn candidates(ns: Seq<Seq<u8>>, main: Seq<u8>, cur: Seq<u8>) -> Seq<Seq<u8>>
    decreases ns.len(),
{
    if ns.len() == 0 {
        Seq::empty()
    } else {
        (if ns[0] != main && ns[0] != cur {
            seq![ns[0]]
        } else {
            Seq::empty()
        }) + candidates(ns.skip(1), main, cur)
    }
}

/// Select the deletion candidates from the local branch listing: every
/// branch except main and the current branch, in listing order.
pub fn candidate_branches(locals: &Vec<Vec<u8>>, main: &Vec<u8>, current: &Vec<u8>) -> (r: Vec<
    Vec<u8>,
>)
    ensures
        views(r@) == candidates(views(locals@), main@, current@),
{
    let ghost all = views(locals@);
    let mut r: Vec<Vec<u8>> = Vec::new();
    let mut i: usize = 0;
    proof {
        assert(all.skip(0) =~= all);
        assert(views(r@) + candidates(all, main@, current@) =~= candidates(all, main@, current@));
    }
    while i < locals.len()
        invariant
            i <= locals@.len(),
            all == views(locals@),
            candidates(all, main@, current@) == views(r@) + candidates(
                all.skip(i as int),
                main@,
                current@,
            ),
        decreases locals@.len() - i,
    {
        let ghost r0 = r@;
        proof {
            assert(all.skip(i as int)[0] == locals@[i as int]@);
            assert(all.skip(i as int).skip(1) =~= all.skip(i + 1));
        }
        if !bytes_eq(&locals[i], main) && !bytes_eq(&locals[i], current) {
            let name = copy_bytes(&locals[i]);
            r.push(name);
            proof {
                assert(views(r@) =~= views(r0) + seq![locals@[i as int]@]);
                assert((views(r0) + seq![locals@[i as int]@]) + candidates(
                    all.skip(i + 1),
                    main@,
                    current@,
                ) =~= views(r0) + (seq![locals@[i as int]@] + candidates(
                    all.skip(i + 1),
                    main@,
                    current@,
                )));
            }
        } else {
            proof {
                assert(Seq::<Seq<u8>>::empty() + candidates(all.skip(i + 1), main@, current@)
                    =~= candidates(all.skip(i + 1), main@, current@));
            }
        }
        i += 1;
    }
    proof {
        assert(all.skip(locals@.len() as int) =~= Seq::<Seq<u8>>::empty());
        assert(views(r@) + Seq::<Seq<u8>>::empty() =~= views(r@));
    }
    r
}

/// Every candidate differs from main and from the current branch, and every
/// listed branch other than those two is a candidate.
pub proof fn lemma_candidates_exclude(ns: Seq<Seq<u8>>, main: Seq<u8>, cur: Seq<u8>)
    ensures
        forall|i: int| 0 <= i < candidates(ns, main, cur).len()
            ==> #[trigger] candidates(ns, main, cur)[i] != main && candidates(ns, main, cur)[i]
            != cur,
        forall|i: int| 0 <= i < ns.len() && ns[i] != main && ns[i] != cur
            ==> candidates(ns, main, cur).contains(#[trigger] ns[i]),
    decreases ns.len(),
{
    if ns.len() > 0 {
        lemma_candidates_exclude(ns.skip(1), main, cur);
        let c = candidates(ns, main, cur);
        let head: Seq<Seq<u8>> = if ns[0] != main && ns[0] != cur {
            seq![ns[0]]
        } else {
            Seq::empty()
        };
        let rest = candidates(ns.skip(1), main, cur);
        assert forall|i: int| 0 <= i < ns.len() && ns[i] != main && ns[i] != cur implies c.contains(
            #[trigger] ns[i],
        ) by {
            if i == 0 {
                assert(c[0] == ns[0]);
            } else {
                assert(ns.skip(1)[i - 1] == ns[i]);
                assert(rest.contains(ns[i]));
                let j = choose|j: int| 0 <= j < rest.len() && rest[j] == ns[i];
                assert(c[head.len() + j] == ns[i]);
            }
        }
    }
}

/// Drop the last byte of a command's output, if any: the listing of the
/// current branch ends with a final line feed (or is entirely empty in
/// detached-head state).
pub fn chomp_last(v: &mut Vec<u8>)
    ensures
        final(v)@ == if old(v)@.len() > 0 {
            old(v)@.drop_last()
        } else {
            old(v)@
        },
{
    let _popped = v.pop();
    proof {
        if old(v)@.len() > 0 {
            assert(v@ =~= old(v)@.drop_last());
        }
    }
}

} // verus!

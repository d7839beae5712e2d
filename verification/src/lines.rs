//! Line structure of the review document: splitting a byte document into
//! lines, and selecting from saved lines the branches approved for deletion.
//! A saved line approves a deletion iff it is non-empty and not
//! comment-prefixed; its surrounding whitespace is trimmed away.
use vstd::prelude::*;
use crate::bytes::{is_space, lemma_trim_clean, subrange_vec, trim, views};

verus! {

/// Accumulator-style line splitter: `cur` is the line under construction.
pub open spec fn lines_of(s: Seq<u8>, cur: Seq<u8>) -> Seq<Seq<u8>>
    decreases s.len(),
{
    if s.len() == 0 {
        if cur.len() == 0 {
            Seq::empty()
        } else {
            seq![cur]
        }
    } else if s[0] == 10 {
        seq![cur] + lines_of(s.skip(1), Seq::empty())
    } else {
        lines_of(s.skip(1), cur.push(s[0]))
    }
}

/// The lines of a document, split at line feeds; a final line feed closes the
/// last line rather than opening an empty one.
pub open spec fn split_lines(s: Seq<u8>) -> Seq<Seq<u8>> {
    lines_of(s, Seq::empty())
}

/// Bytes without a line feed extend the line under construction.
pub proof fn lemma_lines_of_text(t: Seq<u8>, x: Seq<u8>, cur: Seq<u8>)
    requires
        !t.contains(10),
    ensures
        lines_of(t + x, cur) == lines_of(x, cur + t),
    decreases t.len(),
{
    if t.len() == 0 {
        assert(t + x =~= x);
        assert(cur + t =~= cur);
    } else {
        assert(t[0] != 10);
        assert((t + x)[0] == t[0]);
        let t1 = t.skip(1);
        assert(!t1.contains(10)) by {
            if t1.contains(10) {
                let i = choose|i: int| 0 <= i < t1.len() && t1[i] == 10;
                assert(t[i + 1] == 10);
            }
        }
        assert((t + x).skip(1) =~= t1 + x);
        lemma_lines_of_text(t1, x, cur.push(t[0]));
        assert(cur.push(t[0]) + t1 =~= cur + t);
    }
}

/// Splitting distributes over concatenation when the first part ends with a
/// line feed.
pub proof fn lemma_lines_of_concat(a: Seq<u8>, b: Seq<u8>, cur: Seq<u8>)
    requires
        a.len() > 0,
        a.last() == 10,
    ensures
        lines_of(a + b, cur) == lines_of(a, cur) + lines_of(b, Seq::empty()),
    decreases a.len(),
{
    assert((a + b)[0] == a[0]);
    assert((a + b).skip(1) =~= a.skip(1) + b);
    if a[0] == 10 {
        if a.len() == 1 {
            assert(a.skip(1) =~= Seq::<u8>::empty());
            assert(a.skip(1) + b =~= b);
            assert(lines_of(a, cur) =~= seq![cur]);
            assert(seq![cur] + lines_of(b, Seq::empty()) =~= lines_of(a + b, cur));
        } else {
            assert(a.skip(1).last() == a.last());
            lemma_lines_of_concat(a.skip(1), b, Seq::empty());
            assert(seq![cur] + (lines_of(a.skip(1), Seq::empty()) + lines_of(b, Seq::empty()))
                =~= (seq![cur] + lines_of(a.skip(1), Seq::empty())) + lines_of(b, Seq::empty()));
        }
    } else {
        assert(a.len() > 1);
        assert(a.skip(1).last() == 10);
        lemma_lines_of_concat(a.skip(1), b, cur.push(a[0]));
    }
}

/// `split_lines` distributes over concatenation at a line boundary.
pub proof fn lemma_split_concat(a: Seq<u8>, b: Seq<u8>)
    requires
        a.len() == 0 || a.last() == 10,
    ensures
        split_lines(a + b) == split_lines(a) + split_lines(b),
{
    if a.len() == 0 {
        assert(a + b =~= b);
        assert(split_lines(a) + split_lines(b) =~= split_lines(b));
    } else {
        lemma_lines_of_concat(a, b, Seq::empty());
    }
}

/// A saved line with its trailing carriage return removed.
pub open spec fn strip_cr(l: Seq<u8>) -> Seq<u8> {
    if l.len() > 0 && l.last() == 13 {
        l.drop_last()
    } else {
        l
    }
}

/// What one saved line contributes to the deletion set: nothing when the line
/// is empty or comment-prefixed, else the trimmed branch name.
pub open spec fn line_keep(l: Seq<u8>) -> Seq<Seq<u8>> {
    let c = strip_cr(l);
    if c.len() > 0 && c[0] != 35 {
        seq![trim(c)]
    } else {
        Seq::empty()
    }
}

/// The deletion set named by a sequence of saved lines.
pub open spec fn sel_lines(ls: Seq<Seq<u8>>) -> Seq<Seq<u8>>
    decreases ls.len(),
{
    if ls.len() == 0 {
        Seq::empty()
    } else {
        line_keep(ls[0]) + sel_lines(ls.skip(1))
    }
}

/// The deletion set named by a saved document: one entry per non-empty,
/// uncommented line, trimmed of surrounding whitespace.
pub open spec fn parse_spec(s: Seq<u8>) -> Seq<Seq<u8>> {
    sel_lines(split_lines(s))
}

/// Selection distributes over concatenation of line sequences.
pub proof fn lemma_sel_concat(a: Seq<Seq<u8>>, b: Seq<Seq<u8>>)
    ensures
        sel_lines(a + b) == sel_lines(a) + sel_lines(b),
    decreases a.len(),
{
    if a.len() == 0 {
        assert(a + b =~= b);
        assert(sel_lines(a) + sel_lines(b) =~= sel_lines(b));
    } else {
        assert((a + b)[0] == a[0]);
        assert((a + b).skip(1) =~= a.skip(1) + b);
        lemma_sel_concat(a.skip(1), b);
        assert(line_keep(a[0]) + (sel_lines(a.skip(1)) + sel_lines(b))
            =~= (line_keep(a[0]) + sel_lines(a.skip(1))) + sel_lines(b));
    }
}

/// A branch name that the review document round-trips exactly: non-empty, not
/// comment-prefixed, free of line feeds, and without surrounding whitespace.
pub open spec fn clean_name(n: Seq<u8>) -> bool {
    &&& n.len() > 0
    &&& n[0] != 35
    &&& !n.contains(10)
    &&& !is_space(n[0])
    &&& !is_space(n[n.len() - 1])
}

/// A clean, uncommented line is approved for deletion exactly as written.
pub proof fn lemma_keep_clean(n: Seq<u8>)
    requires
        clean_name(n),
    ensures
        line_keep(n) == seq![n],
{
    assert(n.last() != 13);
    lemma_trim_clean(n);
}

/// A comment-prefixed line contributes nothing.
pub proof fn lemma_keep_comment(l: Seq<u8>)
    requires
        l.len() > 0,
        l[0] == 35,
    ensures
        line_keep(l) == Seq::<Seq<u8>>::empty(),
{
    if l.len() > 0 && l.last() == 13 {
        assert(l.len() > 1);
        assert(l.drop_last()[0] == 35);
    }
}

/// Every line is blank or comment-prefixed.
pub open spec fn all_preserved(ls: Seq<Seq<u8>>) -> bool {
    forall|i: int| 0 <= i < ls.len() ==> (ls[i].len() == 0 || ls[i][0] == 35)
}

/// Lines that are all blank or commented approve no deletion at all.
pub proof fn lemma_sel_preserved(ls: Seq<Seq<u8>>)
    requires
        all_preserved(ls),
    ensures
        sel_lines(ls) == Seq::<Seq<u8>>::empty(),
    decreases ls.len(),
{
    if ls.len() > 0 {
        let l = ls[0];
        if l.len() > 0 {
            lemma_keep_comment(l);
        }
        assert(all_preserved(ls.skip(1))) by {
            assert(forall|i: int| 0 <= i < ls.skip(1).len() ==> ls.skip(1)[i] == ls[i + 1]);
        }
        lemma_sel_preserved(ls.skip(1));
        assert(line_keep(l) + Seq::<Seq<u8>>::empty() =~= Seq::<Seq<u8>>::empty());
    }
}

/// Clean uncommented lines are approved exactly as written.
pub proof fn lemma_sel_clean(ns: Seq<Seq<u8>>)
    requires
        forall|i: int| 0 <= i < ns.len() ==> clean_name(#[trigger] ns[i]),
    ensures
        sel_lines(ns) == ns,
    decreases ns.len(),
{
    if ns.len() > 0 {
        lemma_keep_clean(ns[0]);
        assert(forall|i: int| 0 <= i < ns.skip(1).len() ==> clean_name(#[trigger] ns.skip(1)[i]));
        lemma_sel_clean(ns.skip(1));
        assert(seq![ns[0]] + ns.skip(1) =~= ns);
    }
}

/// Edit override: whatever a line's original classification was, commenting
/// it out preserves its branch, and a clean uncommented line is deleted.
pub proof fn lemma_edit_override(pre: Seq<Seq<u8>>, l: Seq<u8>, post: Seq<Seq<u8>>)
    ensures
        sel_lines(pre + seq![seq![35u8] + l] + post) == sel_lines(pre) + sel_lines(post),
        clean_name(l) ==> sel_lines(pre + seq![l] + post) == sel_lines(pre) + seq![l] + sel_lines(post),
{
    let cl = seq![35u8] + l;
    assert(cl[0] == 35);
    lemma_keep_comment(cl);
    lemma_sel_single(cl);
    lemma_sel_concat(pre, seq![cl]);
    lemma_sel_concat(pre + seq![cl], post);
    assert(sel_lines(pre) + Seq::<Seq<u8>>::empty() =~= sel_lines(pre));
    if clean_name(l) {
        lemma_keep_clean(l);
        lemma_sel_single(l);
        lemma_sel_concat(pre, seq![l]);
        lemma_sel_concat(pre + seq![l], post);
    }
}

/// In a document where every line feed is followed by another line feed or
/// a comment mark (and whose open line, if any, is commented), every line is
/// blank or comment-prefixed.
pub proof fn lemma_lines_structure(s: Seq<u8>, cur: Seq<u8>)
    requires
        cur.len() > 0 ==> cur[0] == 35,
        s.len() > 0 && cur.len() == 0 ==> s[0] == 10 || s[0] == 35,
        forall|i: int| #![trigger s[i]] 0 <= i < s.len() - 1 && s[i] == 10 ==> s[i + 1] == 10
            || s[i + 1] == 35,
    ensures
        all_preserved(lines_of(s, cur)),
    decreases s.len(),
{
    if s.len() == 0 {
        assert(all_preserved(lines_of(s, cur)));
    } else {
        let t = s.skip(1);
        assert(forall|i: int| 0 <= i < t.len() ==> #[trigger] t[i] == s[i + 1]);
        if s[0] == 10 {
            lemma_lines_structure(t, Seq::empty());
            let rest = lines_of(t, Seq::empty());
            let ls = seq![cur] + rest;
            assert forall|i: int| 0 <= i < ls.len() implies (#[trigger] ls[i].len() == 0
                || ls[i][0] == 35) by {
                if i > 0 {
                    assert(ls[i] == rest[i - 1]);
                }
            }
        } else {
            let cur1 = cur.push(s[0]);
            assert(cur1[0] == 35);
            lemma_lines_structure(t, cur1);
        }
    }
}

/// Selection of a single line is that line's contribution.
pub proof fn lemma_sel_single(l: Seq<u8>)
    ensures
        sel_lines(seq![l]) == line_keep(l),
{
    assert(seq![l].skip(1) =~= Seq::<Seq<u8>>::empty());
    assert(line_keep(l) + sel_lines(Seq::<Seq<u8>>::empty()) =~= line_keep(l));
}

/// Split a document into its lines (used both for the saved review document
/// and for the output of the branch listing).
pub fn split_into_lines(doc: &Vec<u8>) -> (r: Vec<Vec<u8>>)
    ensures
        views(r@) == split_lines(doc@),
{
    let mut out: Vec<Vec<u8>> = Vec::new();
    let mut cur: Vec<u8> = Vec::new();
    let mut i: usize = 0;
    proof {
        assert(doc@.skip(0) =~= doc@);
        assert(views(out@) + lines_of(doc@, cur@) =~= lines_of(doc@, cur@));
    }
    while i < doc.len()
        invariant
            i <= doc@.len(),
            split_lines(doc@) == views(out@) + lines_of(doc@.skip(i as int), cur@),
        decreases doc@.len() - i,
    {
        let ghost out0 = out@;
        let ghost cur0 = cur@;
        proof {
            assert(doc@.skip(i as int)[0] == doc@[i as int]);
            assert(doc@.skip(i as int).skip(1) =~= doc@.skip(i + 1));
        }
        if doc[i] == 10 {
            out.push(cur);
            cur = Vec::new();
            proof {
                assert(views(out@) =~= views(out0) + seq![cur0]);
                assert((views(out0) + seq![cur0]) + lines_of(doc@.skip(i + 1), cur@)
                    =~= views(out0) + (seq![cur0] + lines_of(doc@.skip(i + 1), cur@)));
            }
        } else {
            cur.push(doc[i]);
        }
        i += 1;
    }
    proof {
        assert(doc@.skip(doc@.len() as int) =~= Seq::<u8>::empty());
    }
    if cur.len() > 0 {
        let ghost out0 = out@;
        let ghost cur0 = cur@;
        out.push(cur);
        proof {
            assert(views(out@) =~= views(out0) + seq![cur0]);
        }
    } else {
        proof {
            assert(views(out@) + lines_of(Seq::<u8>::empty(), cur@) =~= views(out@));
        }
    }
    out
}

/// Copy of a line with its trailing carriage return removed.
pub fn strip_cr_vec(l: &Vec<u8>) -> (r: Vec<u8>)
    ensures
        r@ == strip_cr(l@),
{
    let end: usize = if l.len() > 0 && l[l.len() - 1] == 13 {
        l.len() - 1
    } else {
        l.len()
    };
    let r = subrange_vec(l, 0, end);
    proof {
        assert(l@.subrange(0, end as int) =~= strip_cr(l@));
    }
    r
}

} // verus!

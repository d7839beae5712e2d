//! The review document. It proposes the FullyMerged branches for deletion as
//! bare (active) lines, keeps the NotMerged ones behind a comment prefix, and
//! closes with a fixed instructional footer. The saved document alone decides
//! what is deleted: the classification only seeds the document, and the
//! user's edits fully override it.
use vstd::prelude::*;
use crate::bytes::{push_all, trim, views};
use crate::classify::MergeVerdict;
use crate::lines::{
    all_preserved, clean_name, lemma_lines_of_text, lemma_lines_structure,
    lemma_sel_clean, lemma_sel_concat, lemma_sel_preserved, lemma_split_concat, line_keep,
    lines_of, parse_spec, sel_lines, split_into_lines, split_lines, strip_cr, strip_cr_vec,
};

verus! {

/// A branch together with its classification.
#[derive(Debug)]
pub struct ClassifiedBranch {
    pub name: Vec<u8>,
    pub verdict: MergeVerdict,
}

/// The names of the entries classified FullyMerged, in order.
pub open spec fn fm_names(es: Seq<ClassifiedBranch>) -> Seq<Seq<u8>>
    decreases es.len(),
{
    if es.len() == 0 {
        Seq::empty()
    } else {
        (if es[0].verdict == MergeVerdict::FullyMerged {
            seq![es[0].name@]
        } else {
            Seq::empty()
        }) + fm_names(es.skip(1))
    }
}

/// The comment-prefixed lines of the entries classified NotMerged, in order.
pub open spec fn nm_lines(es: Seq<ClassifiedBranch>) -> Seq<Seq<u8>>
    decreases es.len(),
{
    if es.len() == 0 {
        Seq::empty()
    } else {
        (if es[0].verdict == MergeVerdict::NotMerged {
            seq![seq![35u8, 32u8] + es[0].name@]
        } else {
            Seq::empty()
        }) + nm_lines(es.skip(1))
    }
}

/// An active document line: the bare branch name.
pub open spec fn active_line(n: Seq<u8>) -> Seq<u8> {
    n + seq![10u8]
}

/// A preserved document line: the branch name behind a comment prefix.
pub open spec fn preserved_line(n: Seq<u8>) -> Seq<u8> {
    seq![35u8, 32u8] + n + seq![10u8]
}

/// The block of active lines, one per FullyMerged entry.
pub open spec fn active_block(es: Seq<ClassifiedBranch>) -> Seq<u8>
    decreases es.len(),
{
    if es.len() == 0 {
        Seq::empty()
    } else {
        (if es[0].verdict == MergeVerdict::FullyMerged {
            active_line(es[0].name@)
        } else {
            Seq::empty()
        }) + active_block(es.skip(1))
    }
}

/// The block of preserved lines, one per NotMerged entry.
pub open spec fn preserved_block(es: Seq<ClassifiedBranch>) -> Seq<u8>
    decreases es.len(),
{
    if es.len() == 0 {
        Seq::empty()
    } else {
        (if es[0].verdict == MergeVerdict::NotMerged {
            preserved_line(es[0].name@)
        } else {
            Seq::empty()
        }) + preserved_block(es.skip(1))
    }
}

/// The review body: all active lines first, then all preserved lines.
pub open spec fn body_spec(es: Seq<ClassifiedBranch>) -> Seq<u8> {
    active_block(es) + preserved_block(es)
}

/// Every classified name round-trips through the document unchanged.
pub open spec fn clean_entries(es: Seq<ClassifiedBranch>) -> bool {
    forall|i: int| 0 <= i < es.len() ==> clean_name(#[trigger] es[i].name@)
}

/// The footer contributes no deletion, however the user saved it: all of its
/// lines are blank or comment-prefixed.
pub open spec fn footer_ok(f: Seq<u8>) -> bool {
    all_preserved(split_lines(f))
}

proof fn lemma_block_ends_nl(es: Seq<ClassifiedBranch>)
    ensures
        active_block(es).len() == 0 || active_block(es).last() == 10,
        preserved_block(es).len() == 0 || preserved_block(es).last() == 10,
        body_spec(es).len() == 0 || body_spec(es).last() == 10,
    decreases es.len(),
{
    if es.len() > 0 {
        lemma_block_ends_nl(es.skip(1));
    }
}

proof fn lemma_no_nl_prefixed(n: Seq<u8>, p: Seq<u8>)
    requires
        !n.contains(10),
        !p.contains(10),
    ensures
        !(p + n).contains(10),
{
    if (p + n).contains(10) {
        let j = choose|j: int| 0 <= j < (p + n).len() && (p + n)[j] == 10;
        if j < p.len() {
            assert(p[j] == 10);
        } else {
            assert(n[j - p.len()] == 10);
        }
    }
}

proof fn lemma_split_one_line(t: Seq<u8>)
    requires
        !t.contains(10),
    ensures
        split_lines(t + seq![10u8]) == seq![t],
{
    lemma_lines_of_text(t, seq![10u8], Seq::<u8>::empty());
    assert(Seq::<u8>::empty() + t =~= t);
    assert(seq![10u8].skip(1) =~= Seq::<u8>::empty());
    assert(seq![t] + lines_of(Seq::<u8>::empty(), Seq::<u8>::empty()) =~= seq![t]);
}

proof fn lemma_split_active(es: Seq<ClassifiedBranch>)
    requires
        clean_entries(es),
    ensures
        split_lines(active_block(es)) == fm_names(es),
    decreases es.len(),
{
    if es.len() == 0 {
        assert(split_lines(active_block(es)) =~= fm_names(es));
    } else {
        assert(clean_entries(es.skip(1))) by {
            assert(forall|i: int| 0 <= i < es.skip(1).len() ==> es.skip(1)[i] == es[i + 1]);
        }
        lemma_split_active(es.skip(1));
        let n = es[0].name@;
        let rest = active_block(es.skip(1));
        if es[0].verdict == MergeVerdict::FullyMerged {
            assert(clean_name(n));
            lemma_split_concat(n + seq![10u8], rest);
            lemma_split_one_line(n);
            assert(active_block(es) == (n + seq![10u8]) + rest);
            assert(seq![n] + fm_names(es.skip(1)) =~= fm_names(es));
        } else {
            assert(active_block(es) =~= rest);
            assert(fm_names(es) =~= fm_names(es.skip(1)));
        }
    }
}

proof fn lemma_split_preserved(es: Seq<ClassifiedBranch>)
    requires
        clean_entries(es),
    ensures
        split_lines(preserved_block(es)) == nm_lines(es),
    decreases es.len(),
{
    if es.len() == 0 {
        assert(split_lines(preserved_block(es)) =~= nm_lines(es));
    } else {
        assert(clean_entries(es.skip(1))) by {
            assert(forall|i: int| 0 <= i < es.skip(1).len() ==> es.skip(1)[i] == es[i + 1]);
        }
        lemma_split_preserved(es.skip(1));
        let n = es[0].name@;
        let rest = preserved_block(es.skip(1));
        if es[0].verdict == MergeVerdict::NotMerged {
            assert(clean_name(n));
            let pl = seq![35u8, 32u8] + n;
            assert(!seq![35u8, 32u8].contains(10)) by {
                if seq![35u8, 32u8].contains(10) {
                    let j = choose|j: int|
                        0 <= j < seq![35u8, 32u8].len() && seq![35u8, 32u8][j] == 10;
                }
            }
            lemma_no_nl_prefixed(n, seq![35u8, 32u8]);
            lemma_split_concat(pl + seq![10u8], rest);
            lemma_split_one_line(pl);
            assert(preserved_block(es) == (pl + seq![10u8]) + rest);
            assert(preserved_line(n) =~= pl + seq![10u8]);
            assert(seq![pl] + nm_lines(es.skip(1)) =~= nm_lines(es));
        } else {
            assert(preserved_block(es) =~= rest);
            assert(nm_lines(es) =~= nm_lines(es.skip(1)));
        }
    }
}

proof fn lemma_fm_names_clean(es: Seq<ClassifiedBranch>)
    requires
        clean_entries(es),
    ensures
        forall|i: int| 0 <= i < fm_names(es).len() ==> clean_name(#[trigger] fm_names(es)[i]),
    decreases es.len(),
{
    if es.len() > 0 {
        assert(clean_entries(es.skip(1))) by {
            assert(forall|i: int| 0 <= i < es.skip(1).len() ==> es.skip(1)[i] == es[i + 1]);
        }
        lemma_fm_names_clean(es.skip(1));
        let ns = fm_names(es);
        let rest = fm_names(es.skip(1));
        assert forall|i: int| 0 <= i < ns.len() implies clean_name(#[trigger] ns[i]) by {
            if es[0].verdict == MergeVerdict::FullyMerged {
                if i > 0 {
                    assert(ns[i] == rest[i - 1]);
                }
            } else {
                assert(ns[i] == rest[i]);
            }
        }
    }
}

proof fn lemma_nm_lines_preserved(es: Seq<ClassifiedBranch>)
    ensures
        all_preserved(nm_lines(es)),
    decreases es.len(),
{
    if es.len() > 0 {
        lemma_nm_lines_preserved(es.skip(1));
        let ls = nm_lines(es);
        let rest = nm_lines(es.skip(1));
        assert forall|i: int| 0 <= i < ls.len() implies (#[trigger] ls[i].len() == 0
            || ls[i][0] == 35) by {
            if es[0].verdict == MergeVerdict::NotMerged {
                if i > 0 {
                    assert(ls[i] == rest[i - 1]);
                }
            } else {
                assert(ls[i] == rest[i]);
            }
        }
    }
}

proof fn lemma_line_counts(es: Seq<ClassifiedBranch>)
    ensures
        fm_names(es).len() + nm_lines(es).len() == es.len(),
    decreases es.len(),
{
    if es.len() > 0 {
        lemma_line_counts(es.skip(1));
    }
}

/// One line per classified branch: under clean names the review body splits
/// into exactly one line per entry — the bare name iff the entry classified
/// FullyMerged, the comment-prefixed name iff it classified NotMerged
/// (active lines stand first).
pub proof fn lemma_one_line_per_branch(es: Seq<ClassifiedBranch>)
    requires
        clean_entries(es),
    ensures
        split_lines(body_spec(es)) == fm_names(es) + nm_lines(es),
        split_lines(body_spec(es)).len() == es.len(),
{
    lemma_split_active(es);
    lemma_split_preserved(es);
    lemma_block_ends_nl(es);
    lemma_split_concat(active_block(es), preserved_block(es));
    lemma_line_counts(es);
}

/// Idempotence: a review document saved unchanged approves exactly the
/// FullyMerged branches for deletion.
pub proof fn lemma_round_trip(es: Seq<ClassifiedBranch>, f: Seq<u8>)
    requires
        clean_entries(es),
        footer_ok(f),
    ensures
        parse_spec(body_spec(es) + f) == fm_names(es),
{
    lemma_one_line_per_branch(es);
    lemma_block_ends_nl(es);
    lemma_split_concat(body_spec(es), f);
    lemma_sel_concat(fm_names(es) + nm_lines(es), split_lines(f));
    lemma_sel_concat(fm_names(es), nm_lines(es));
    lemma_fm_names_clean(es);
    lemma_sel_clean(fm_names(es));
    lemma_nm_lines_preserved(es);
    lemma_sel_preserved(nm_lines(es));
    lemma_sel_preserved(split_lines(f));
    assert((fm_names(es) + Seq::<Seq<u8>>::empty()) + Seq::<Seq<u8>>::empty() =~= fm_names(es));
}

/// `text` with any line feed replaced by a space, so that it stays on one
/// footer line.
pub open spec fn sanitize(t: Seq<u8>) -> Seq<u8> {
    t.map_values(
        |b: u8|
            if b == 10 {
                32u8
            } else {
                b
            },
    )
}

spec fn comment_structured(s: Seq<u8>) -> bool {
    forall|i: int|
        #![trigger s[i]]
        0 <= i < s.len() - 1 && s[i] == 10 ==> s[i + 1] == 10 || s[i + 1] == 35
}

spec fn comment_shaped(s: Seq<u8>) -> bool {
    &&& comment_structured(s)
    &&& s.len() == 0 || s[0] == 10
    &&& s.len() == 0 || s.last() != 10
}

fn append_comment_segment(doc: &mut Vec<u8>, text: &[u8])
    requires
        comment_shaped(old(doc)@),
    ensures
        final(doc)@ == old(doc)@ + seq![10u8, 35u8] + sanitize(text@),
        comment_shaped(final(doc)@),
{
    doc.push(10);
    doc.push(35);
    proof {
        assert(doc@ =~= old(doc)@ + seq![10u8, 35u8] + sanitize(text@).take(0));
    }
    let mut i: usize = 0;
    while i < text.len()
        invariant
            i <= text@.len(),
            doc@ == old(doc)@ + seq![10u8, 35u8] + sanitize(text@).take(i as int),
        decreases text@.len() - i,
    {
        let b = text[i];
        if b == 10 {
            doc.push(32);
        } else {
            doc.push(b);
        }
        proof {
            assert(sanitize(text@)[i as int] == (if text@[i as int] == 10 {
                32u8
            } else {
                text@[i as int]
            }));
            assert(doc@ =~= old(doc)@ + seq![10u8, 35u8] + sanitize(text@).take(i + 1));
        }
        i += 1;
    }
    proof {
        assert(sanitize(text@).take(text@.len() as int) =~= sanitize(text@));
        let s0 = old(doc)@;
        let st = sanitize(text@);
        let s1 = doc@;
        assert(forall|j: int| 0 <= j < st.len() ==> #[trigger] st[j] != 10);
        assert forall|i2: int|
            0 <= i2 < s1.len() - 1 && #[trigger] s1[i2] == 10 implies (s1[i2 + 1] == 10 || s1[i2
            + 1] == 35) by {
            if i2 < s0.len() - 1 {
                assert(s1[i2] == s0[i2]);
                assert(s1[i2 + 1] == s0[i2 + 1]);
            } else if i2 == s0.len() - 1 {
                assert(s1[i2] == s0.last());
            } else if i2 == s0.len() {
                assert(s1[i2 + 1] == 35);
            } else if i2 == s0.len() + 1 {
                assert(s1[i2] == 35);
            } else {
                assert(s1[i2] == st[i2 - s0.len() - 2]);
            }
        }
        if st.len() > 0 {
            assert(s1.last() == st.last());
        } else {
            assert(s1.last() == 35);
        }
    }
}

/// The fixed instructional footer: a blank separator line, a warning, and
/// usage guidance, every line comment-prefixed so that saving the footer
/// untouched never approves a deletion.
pub fn footer() -> (f: Vec<u8>)
    ensures
        footer_ok(f@),
        f@.len() > 0,
        f@[0] == 10,
{
    let mut f: Vec<u8> = Vec::new();
    append_comment_segment(&mut f, " ^^^^^^^^^^^^^^^^^^^^^^^".as_bytes());
    append_comment_segment(&mut f, " ! TO BE FORCE-DELETED !".as_bytes());
    append_comment_segment(&mut f, "".as_bytes());
    append_comment_segment(
        &mut f,
        " Review and edit the above list of branches to be force-deleted.".as_bytes(),
    );
    append_comment_segment(
        &mut f,
        " To preserve a branch, remove it from the list or comment it.".as_bytes(),
    );
    append_comment_segment(&mut f, " To delete a commented branch, uncomment it.".as_bytes());
    proof {
        lemma_lines_structure(f@, Seq::<u8>::empty());
    }
    f
}

/// Build the review document for the classified branches: one active line
/// per FullyMerged entry, then one preserved line per NotMerged entry, then
/// the footer. Under clean names, parsing the document unchanged yields
/// exactly the FullyMerged names (the idempotence law), and the document has
/// exactly one line per entry before the footer.
pub fn build_document(entries: &Vec<ClassifiedBranch>) -> (doc: Vec<u8>)
    ensures
        doc@.len() >= body_spec(entries@).len(),
        doc@.subrange(0, body_spec(entries@).len() as int) == body_spec(entries@),
        footer_ok(doc@.skip(body_spec(entries@).len() as int)),
        clean_entries(entries@) ==> parse_spec(doc@) == fm_names(entries@),
        clean_entries(entries@) ==> split_lines(doc@) == fm_names(entries@) + nm_lines(entries@)
            + split_lines(doc@.skip(body_spec(entries@).len() as int)),
{
    let ghost es = entries@;
    let mut act: Vec<u8> = Vec::new();
    let mut pres: Vec<u8> = Vec::new();
    let mut i: usize = 0;
    proof {
        assert(es.skip(0) =~= es);
        assert(act@ + active_block(es) =~= active_block(es));
        assert(pres@ + preserved_block(es) =~= preserved_block(es));
    }
    while i < entries.len()
        invariant
            i <= entries@.len(),
            es == entries@,
            active_block(es) == act@ + active_block(es.skip(i as int)),
            preserved_block(es) == pres@ + preserved_block(es.skip(i as int)),
        decreases entries@.len() - i,
    {
        let ghost act0 = act@;
        let ghost pres0 = pres@;
        proof {
            assert(es.skip(i as int)[0] == es[i as int]);
            assert(es.skip(i as int).skip(1) =~= es.skip(i + 1));
        }
        let e = &entries[i];
        match e.verdict {
            MergeVerdict::FullyMerged => {
                push_all(&mut act, &e.name);
                act.push(10);
                proof {
                    assert(act@ =~= act0 + active_line(es[i as int].name@));
                    assert((act0 + active_line(es[i as int].name@)) + active_block(
                        es.skip(i + 1),
                    ) =~= act0 + (active_line(es[i as int].name@) + active_block(es.skip(i + 1))));
                }
            },
            MergeVerdict::NotMerged => {
                pres.push(35);
                pres.push(32);
                push_all(&mut pres, &e.name);
                pres.push(10);
                proof {
                    assert(pres@ =~= pres0 + preserved_line(es[i as int].name@));
                    assert((pres0 + preserved_line(es[i as int].name@)) + preserved_block(
                        es.skip(i + 1),
                    ) =~= pres0 + (preserved_line(es[i as int].name@) + preserved_block(
                        es.skip(i + 1),
                    )));
                }
            },
        }
        proof {
            if es[i as int].verdict == MergeVerdict::FullyMerged {
                assert(Seq::<u8>::empty() + preserved_block(es.skip(i + 1)) =~= preserved_block(
                    es.skip(i + 1),
                ));
            } else {
                assert(Seq::<u8>::empty() + active_block(es.skip(i + 1)) =~= active_block(
                    es.skip(i + 1),
                ));
            }
        }
        i += 1;
    }
    proof {
        assert(es.skip(es.len() as int) =~= Seq::<ClassifiedBranch>::empty());
        assert(act@ + Seq::<u8>::empty() =~= act@);
        assert(pres@ + Seq::<u8>::empty() =~= pres@);
    }
    let mut doc = act;
    push_all(&mut doc, &pres);
    let f = footer();
    push_all(&mut doc, &f);
    proof {
        assert(doc@ == body_spec(es) + f@);
        assert(doc@.subrange(0, body_spec(es).len() as int) =~= body_spec(es));
        assert(doc@.skip(body_spec(es).len() as int) =~= f@);
        if clean_entries(es) {
            lemma_round_trip(es, f@);
            lemma_one_line_per_branch(es);
            lemma_block_ends_nl(es);
            lemma_split_concat(body_spec(es), f@);
        }
    }
    doc
}

/// Parse the saved review document: every non-empty, uncommented line names
/// one branch approved for deletion, trimmed of surrounding whitespace. No
/// validation against the candidate set happens here — the user's edits are
/// authoritative, and unknown names must fail per branch at deletion time.
pub fn parse_document(doc: &Vec<u8>) -> (names: Vec<Vec<u8>>)
    ensures
        views(names@) == parse_spec(doc@),
{
    let lines = split_into_lines(doc);
    let ghost ls = views(lines@);
    let mut names: Vec<Vec<u8>> = Vec::new();
    let mut i: usize = 0;
    proof {
        assert(ls.skip(0) =~= ls);
        assert(views(names@) + sel_lines(ls) =~= sel_lines(ls));
    }
    while i < lines.len()
        invariant
            i <= lines@.len(),
            ls == views(lines@),
            sel_lines(ls) == views(names@) + sel_lines(ls.skip(i as int)),
        decreases lines@.len() - i,
    {
        let ghost n0 = names@;
        proof {
            assert(ls.skip(i as int)[0] == lines@[i as int]@);
            assert(ls.skip(i as int).skip(1) =~= ls.skip(i + 1));
        }
        let c = strip_cr_vec(&lines[i]);
        if c.len() > 0 && c[0] != 35 {
            let t = crate::bytes::trim_bytes(&c);
            names.push(t);
            proof {
                let l = lines@[i as int]@;
                assert(line_keep(l) =~= seq![trim(strip_cr(l))]);
                assert(views(names@) =~= views(n0) + seq![trim(strip_cr(l))]);
                assert((views(n0) + seq![trim(strip_cr(l))]) + sel_lines(ls.skip(i + 1)) =~= views(
                    n0,
                ) + (seq![trim(strip_cr(l))] + sel_lines(ls.skip(i + 1))));
            }
        } else {
            proof {
                let l = lines@[i as int]@;
                assert(line_keep(l) =~= Seq::<Seq<u8>>::empty());
                assert(Seq::<Seq<u8>>::empty() + sel_lines(ls.skip(i + 1)) =~= sel_lines(
                    ls.skip(i + 1),
                ));
            }
        }
        i += 1;
    }
    proof {
        assert(ls.skip(ls.len() as int) =~= Seq::<Seq<u8>>::empty());
        assert(views(names@) + Seq::<Seq<u8>>::empty() =~= views(names@));
    }
    names
}

/// Skip rule for the review session: the editor is opened iff at least one
/// branch classified FullyMerged, or the force option is set; otherwise the
/// run is a no-op and no document is created at all.
pub fn should_open_editor(entries: &Vec<ClassifiedBranch>, always_open: bool) -> (r: bool)
    ensures
        r == (always_open || fm_names(entries@).len() > 0),
{
    if always_open {
        return true;
    }
    let ghost es = entries@;
    let mut i: usize = 0;
    proof {
        assert(es.skip(0) =~= es);
    }
    while i < entries.len()
        invariant
            i <= entries@.len(),
            es == entries@,
            fm_names(es).len() == fm_names(es.skip(i as int)).len(),
        decreases entries@.len() - i,
    {
        proof {
            assert(es.skip(i as int)[0] == es[i as int]);
            assert(es.skip(i as int).skip(1) =~= es.skip(i + 1));
        }
        let e = &entries[i];
        match e.verdict {
            MergeVerdict::FullyMerged => {
                return true;
            },
            MergeVerdict::NotMerged => {},
        }
        proof {
            assert(Seq::<Seq<u8>>::empty() + fm_names(es.skip(i + 1)) =~= fm_names(
                es.skip(i + 1),
            ));
        }
        i += 1;
    }
    proof {
        assert(es.skip(es.len() as int) =~= Seq::<ClassifiedBranch>::empty());
    }
    false
}

} // verus!

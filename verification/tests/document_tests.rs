use quickprune::classify::MergeVerdict;
use quickprune::deletion::{DeletionBatch, DeletionOutcome};
use quickprune::document::{build_document, parse_document, should_open_editor, ClassifiedBranch};

fn entry(name: &str, verdict: MergeVerdict) -> ClassifiedBranch {
    ClassifiedBranch { name: name.as_bytes().to_vec(), verdict }
}

const FOOTER: &str = "
# ^^^^^^^^^^^^^^^^^^^^^^^
# ! TO BE FORCE-DELETED !
#
# Review and edit the above list of branches to be force-deleted.
# To preserve a branch, remove it from the list or comment it.
# To delete a commented branch, uncomment it.";

#[test]
fn document_one_line_per_branch_active_iff_fully_merged() {
    let entries = vec![
        entry("feature-a", MergeVerdict::FullyMerged),
        entry("feature-b", MergeVerdict::NotMerged),
        entry("feature-c", MergeVerdict::FullyMerged),
    ];
    let doc = build_document(&entries);
    let expected = format!("feature-a\nfeature-c\n# feature-b\n{}", FOOTER);
    assert_eq!(doc, expected.into_bytes());
}

#[test]
fn merged_branch_appears_uncommented_and_is_deleted() {
    // a branch whose simulated merge reproduces main's tree exactly
    let entries = vec![entry("X", MergeVerdict::FullyMerged)];
    let doc = build_document(&entries);
    let text = String::from_utf8(doc.clone()).unwrap();
    assert!(text.starts_with("X\n"));
    let approved = parse_document(&doc);
    assert_eq!(approved, vec![b"X".to_vec()]);
    let mut batch = DeletionBatch::new(approved);
    assert_eq!(batch.next_pending(), Some(b"X".to_vec()));
    batch.record(DeletionOutcome::Deleted);
    assert!(batch.is_done());
}

#[test]
fn conflicting_branch_appears_commented_and_is_never_deleted() {
    let entries = vec![entry("Y", MergeVerdict::NotMerged)];
    let doc = build_document(&entries);
    let text = String::from_utf8(doc.clone()).unwrap();
    assert!(text.starts_with("# Y\n"));
    assert_eq!(parse_document(&doc), Vec::<Vec<u8>>::new());
}

#[test]
fn unchanged_document_round_trips_to_fully_merged_set() {
    let entries = vec![
        entry("one", MergeVerdict::FullyMerged),
        entry("two", MergeVerdict::NotMerged),
        entry("three", MergeVerdict::FullyMerged),
        entry("four", MergeVerdict::NotMerged),
    ];
    let doc = build_document(&entries);
    assert_eq!(parse_document(&doc), vec![b"one".to_vec(), b"three".to_vec()]);
}

#[test]
fn commenting_out_an_active_line_preserves_the_branch() {
    let entries = vec![
        entry("keep-me", MergeVerdict::FullyMerged),
        entry("drop-me", MergeVerdict::FullyMerged),
    ];
    let doc = build_document(&entries);
    let edited = String::from_utf8(doc).unwrap().replace("keep-me\n", "# keep-me\n");
    assert_eq!(parse_document(&edited.into_bytes()), vec![b"drop-me".to_vec()]);
}

#[test]
fn uncommenting_a_preserved_line_deletes_the_branch() {
    let entries = vec![
        entry("merged", MergeVerdict::FullyMerged),
        entry("unmerged", MergeVerdict::NotMerged),
    ];
    let doc = build_document(&entries);
    let edited = String::from_utf8(doc).unwrap().replace("# unmerged\n", "unmerged\n");
    assert_eq!(
        parse_document(&edited.into_bytes()),
        vec![b"merged".to_vec(), b"unmerged".to_vec()]
    );
}

#[test]
fn parse_ignores_blank_lines_and_trims_names() {
    let doc = b"\n  spaced-name  \n# commented\n\n".to_vec();
    assert_eq!(parse_document(&doc), vec![b"spaced-name".to_vec()]);
}

#[test]
fn parse_accepts_names_unknown_to_the_classifier() {
    // arbitrary user edits are trusted; unknown names must fail later,
    // per branch, at the deletion stage
    let doc = b"never-classified\n".to_vec();
    assert_eq!(parse_document(&doc), vec![b"never-classified".to_vec()]);
}

#[test]
fn parse_of_footer_alone_approves_nothing() {
    let doc = FOOTER.as_bytes().to_vec();
    assert_eq!(parse_document(&doc), Vec::<Vec<u8>>::new());
}

#[test]
fn parse_strips_carriage_returns() {
    let doc = b"crlf-name\r\n# other\r\n".to_vec();
    assert_eq!(parse_document(&doc), vec![b"crlf-name".to_vec()]);
}

#[test]
fn whitespace_only_line_yields_empty_name() {
    // a line of spaces is non-empty and uncommented, so it is approved and
    // trims to the empty name, which then fails gracefully at deletion
    let doc = b"   \n".to_vec();
    assert_eq!(parse_document(&doc), vec![Vec::<u8>::new()]);
}

#[test]
fn editor_skipped_when_nothing_fully_merged() {
    let entries = vec![
        entry("a", MergeVerdict::NotMerged),
        entry("b", MergeVerdict::NotMerged),
    ];
    assert!(!should_open_editor(&entries, false));
}

#[test]
fn editor_forced_open_by_option() {
    let entries = vec![entry("a", MergeVerdict::NotMerged)];
    assert!(should_open_editor(&entries, true));
    assert!(should_open_editor(&Vec::new(), true));
}

#[test]
fn editor_opens_when_a_branch_is_fully_merged() {
    let entries = vec![
        entry("a", MergeVerdict::NotMerged),
        entry("b", MergeVerdict::FullyMerged),
    ];
    assert!(should_open_editor(&entries, false));
    assert!(!should_open_editor(&Vec::new(), false));
}

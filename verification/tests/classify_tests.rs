use quickprune::bytes::trim_bytes;
use quickprune::classify::{classify, main_tree_id, MergeOutcome, MergeVerdict};

#[test]
fn merged_identical_tree_is_fully_merged() {
    let tree = b"4b825dc642cb6eb9a060e54bf8d69288fbee4904".to_vec();
    let outcome = MergeOutcome::Merged(tree.clone());
    assert_eq!(classify(&outcome, &tree), MergeVerdict::FullyMerged);
}

#[test]
fn conflict_is_not_merged_never_an_error() {
    let tree = b"4b825dc642cb6eb9a060e54bf8d69288fbee4904".to_vec();
    assert_eq!(classify(&MergeOutcome::Conflict, &tree), MergeVerdict::NotMerged);
}

#[test]
fn merged_different_tree_is_not_merged() {
    let main_tree = b"aaaa".to_vec();
    let outcome = MergeOutcome::Merged(b"bbbb".to_vec());
    assert_eq!(classify(&outcome, &main_tree), MergeVerdict::NotMerged);
}

#[test]
fn tree_id_from_commit_listing() {
    let listing = b"tree 4b825dc642cb6eb9a060e54bf8d69288fbee4904\nparent 1234\nauthor x\n";
    assert_eq!(
        main_tree_id(&listing.to_vec()),
        b"4b825dc642cb6eb9a060e54bf8d69288fbee4904".to_vec()
    );
}

#[test]
fn tree_id_from_single_line_listing() {
    let listing = b"tree abcd".to_vec();
    assert_eq!(main_tree_id(&listing), b"abcd".to_vec());
}

#[test]
fn tree_id_strips_carriage_return_and_repeated_tag() {
    assert_eq!(main_tree_id(&b"tree abcd\r\nparent x\n".to_vec()), b"abcd".to_vec());
    // every leading "tree " tag is removed, as str::trim_start_matches does
    assert_eq!(main_tree_id(&b"tree tree abcd\n".to_vec()), b"abcd".to_vec());
}

#[test]
fn tree_id_of_empty_listing_is_empty() {
    assert_eq!(main_tree_id(&Vec::new()), Vec::<u8>::new());
}

#[test]
fn trim_removes_surrounding_whitespace() {
    assert_eq!(trim_bytes(&b"  abc\t\r\n".to_vec()), b"abc".to_vec());
    assert_eq!(trim_bytes(&b"abc".to_vec()), b"abc".to_vec());
    assert_eq!(trim_bytes(&b"   ".to_vec()), Vec::<u8>::new());
    assert_eq!(trim_bytes(&Vec::new()), Vec::<u8>::new());
}

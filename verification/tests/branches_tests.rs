use quickprune::branches::{candidate_branches, chomp_last};
use quickprune::bytes::bytes_eq;
use quickprune::lines::split_into_lines;

fn names(list: &[&str]) -> Vec<Vec<u8>> {
    list.iter().map(|s| s.as_bytes().to_vec()).collect()
}

#[test]
fn candidates_exclude_main_and_current() {
    let locals = names(&["main", "feature-a", "work", "feature-b"]);
    let got = candidate_branches(&locals, &b"main".to_vec(), &b"work".to_vec());
    assert_eq!(got, names(&["feature-a", "feature-b"]));
}

#[test]
fn candidates_in_detached_head_state() {
    // the current branch is empty in detached-head state; no listed branch
    // has an empty name, so only main is excluded
    let locals = names(&["main", "feature-a"]);
    let got = candidate_branches(&locals, &b"main".to_vec(), &Vec::new());
    assert_eq!(got, names(&["feature-a"]));
}

#[test]
fn candidates_keep_listing_order() {
    let locals = names(&["z", "a", "main", "m"]);
    let got = candidate_branches(&locals, &b"main".to_vec(), &b"z".to_vec());
    assert_eq!(got, names(&["a", "m"]));
}

#[test]
fn chomp_drops_final_line_feed() {
    let mut v = b"main\n".to_vec();
    chomp_last(&mut v);
    assert_eq!(v, b"main".to_vec());
}

#[test]
fn chomp_of_empty_output_is_empty() {
    let mut v: Vec<u8> = Vec::new();
    chomp_last(&mut v);
    assert_eq!(v, Vec::<u8>::new());
}

#[test]
fn listing_splits_into_branch_names() {
    let out = b"feature-a\nmain\nwork\n".to_vec();
    assert_eq!(split_into_lines(&out), names(&["feature-a", "main", "work"]));
}

#[test]
fn listing_without_final_line_feed() {
    let out = b"a\nb".to_vec();
    assert_eq!(split_into_lines(&out), names(&["a", "b"]));
}

#[test]
fn empty_listing_has_no_lines() {
    assert_eq!(split_into_lines(&Vec::new()), Vec::<Vec<u8>>::new());
}

#[test]
fn byte_equality() {
    assert!(bytes_eq(&b"abc".to_vec(), &b"abc".to_vec()));
    assert!(!bytes_eq(&b"abc".to_vec(), &b"abd".to_vec()));
    assert!(!bytes_eq(&b"abc".to_vec(), &b"ab".to_vec()));
}

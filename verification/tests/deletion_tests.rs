use quickprune::deletion::{remote_deletion_allowed, DeletionBatch, DeletionOutcome};

fn names(list: &[&str]) -> Vec<Vec<u8>> {
    list.iter().map(|s| s.as_bytes().to_vec()).collect()
}

#[test]
fn a_failure_does_not_stop_the_remaining_branches() {
    let mut batch = DeletionBatch::new(names(&["x", "z", "y"]));
    let mut attempted: Vec<Vec<u8>> = Vec::new();
    while let Some(branch) = batch.next_pending() {
        attempted.push(branch.clone());
        if branch == b"z".to_vec() {
            // e.g. the branch is checked out elsewhere
            batch.record(DeletionOutcome::Failed(b"cannot delete checked-out branch".to_vec()));
        } else {
            batch.record(DeletionOutcome::Deleted);
        }
    }
    assert!(batch.is_done());
    assert_eq!(attempted, names(&["x", "z", "y"]));
    let results = batch.results();
    assert_eq!(results.len(), 3);
    assert_eq!(results[0].name, b"x".to_vec());
    assert!(matches!(results[0].outcome, DeletionOutcome::Deleted));
    assert_eq!(results[1].name, b"z".to_vec());
    match &results[1].outcome {
        DeletionOutcome::Failed(reason) => {
            assert_eq!(reason, &b"cannot delete checked-out branch".to_vec());
        }
        other => panic!("expected a failure, got {:?}", other),
    }
    assert_eq!(results[2].name, b"y".to_vec());
    assert!(matches!(results[2].outcome, DeletionOutcome::Deleted));
}

#[test]
fn batch_processes_names_in_order() {
    let mut batch = DeletionBatch::new(names(&["a", "b"]));
    assert!(!batch.is_done());
    assert_eq!(batch.next_pending(), Some(b"a".to_vec()));
    batch.record(DeletionOutcome::Deleted);
    assert_eq!(batch.next_pending(), Some(b"b".to_vec()));
    batch.record(DeletionOutcome::Skipped);
    assert_eq!(batch.next_pending(), None);
    assert!(batch.is_done());
    assert!(matches!(batch.results()[1].outcome, DeletionOutcome::Skipped));
}

#[test]
fn empty_batch_is_done_at_once() {
    let batch = DeletionBatch::new(Vec::new());
    assert!(batch.is_done());
    assert_eq!(batch.next_pending(), None);
    assert_eq!(batch.results().len(), 0);
}

#[test]
fn remote_deletion_needs_existing_synchronized_remote() {
    let rev_a = Some(b"0123abcd".to_vec());
    let rev_b = Some(b"ffff0000".to_vec());
    assert!(remote_deletion_allowed(&rev_a, &rev_a.clone()));
    assert!(!remote_deletion_allowed(&rev_a, &rev_b));
    assert!(!remote_deletion_allowed(&None, &rev_a));
    assert!(!remote_deletion_allowed(&rev_a, &None));
    assert!(!remote_deletion_allowed(&None, &None));
}

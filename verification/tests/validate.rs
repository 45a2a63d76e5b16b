use batch_rename::batch::RenameError;
use batch_rename::batch::RenamePair;
use batch_rename::batch::detect_target_conflict;
use batch_rename::batch::reverse_batch;
use batch_rename::batch::undo_result;
use batch_rename::batch::validate_batch;

fn pair(from: &str, to: &str) -> RenamePair {
    RenamePair { from: from.to_string(), to: to.to_string() }
}

#[test]
fn two_files_validate_ok() {
    let pairs = vec![pair("/tmp/x/a.txt", "/tmp/x/1.txt"), pair("/tmp/x/b.txt", "/tmp/x/2.txt")];
    let exists = vec![true, true];
    let r = validate_batch(&pairs, &exists);
    assert!(r.success);
    assert!(r.error.is_none());
}

#[test]
fn reversed_batch_validates_ok() {
    let pairs = vec![pair("/tmp/x/a.txt", "/tmp/x/1.txt"), pair("/tmp/x/b.txt", "/tmp/x/2.txt")];
    let rev = reverse_batch(&pairs);
    assert_eq!(rev.len(), 2);
    assert_eq!(rev[0].from, "/tmp/x/1.txt");
    assert_eq!(rev[0].to, "/tmp/x/a.txt");
    assert_eq!(rev[1].from, "/tmp/x/2.txt");
    assert_eq!(rev[1].to, "/tmp/x/b.txt");
    let exists = vec![true, true];
    let r = validate_batch(&rev, &exists);
    assert!(r.success);
}

#[test]
fn conflicting_targets_detected() {
    let pairs = vec![pair("/tmp/x/a.txt", "/tmp/x/1.txt"), pair("/tmp/x/b.txt", "/tmp/x/1.txt")];
    assert!(detect_target_conflict(&pairs));
    let exists = vec![true, true];
    let r = validate_batch(&pairs, &exists);
    assert!(!r.success);
    let err = r.error.expect("a conflict error");
    assert!(matches!(err, RenameError::Conflict));
    assert_eq!(err.message(), "Conflicting target paths detected");
}

#[test]
fn no_conflict_on_distinct_targets() {
    let pairs = vec![pair("/tmp/x/a.txt", "/tmp/x/1.txt"), pair("/tmp/x/b.txt", "/tmp/x/2.txt")];
    assert!(!detect_target_conflict(&pairs));
}

#[test]
fn missing_source_names_path() {
    let pairs = vec![pair("/tmp/x/gone.txt", "/tmp/x/1.txt")];
    let exists = vec![false];
    let r = validate_batch(&pairs, &exists);
    assert!(!r.success);
    let err = r.error.expect("a missing-source error");
    match &err {
        RenameError::SourceMissing(p) => assert_eq!(p, "/tmp/x/gone.txt"),
        _ => panic!("expected a missing-source error"),
    }
    assert_eq!(err.message(), "Source file does not exist: /tmp/x/gone.txt");
}

#[test]
fn first_missing_source_wins() {
    let pairs = vec![
        pair("/tmp/x/a.txt", "/tmp/x/1.txt"),
        pair("/tmp/x/gone.txt", "/tmp/x/2.txt"),
        pair("/tmp/x/also-gone.txt", "/tmp/x/3.txt"),
    ];
    let exists = vec![true, false, false];
    let r = validate_batch(&pairs, &exists);
    assert!(!r.success);
    match r.error.expect("a missing-source error") {
        RenameError::SourceMissing(p) => assert_eq!(p, "/tmp/x/gone.txt"),
        _ => panic!("expected a missing-source error"),
    }
}

#[test]
fn parent_traversal_rejected() {
    let pairs = vec![pair("/tmp/x/a.txt", "../outside/1.txt")];
    let exists = vec![true];
    let r = validate_batch(&pairs, &exists);
    assert!(!r.success);
    let err = r.error.expect("a traversal error");
    assert!(matches!(err, RenameError::Traversal));
    assert_eq!(err.message(), "Path traversal detected: target path outside allowed directory");
}

#[test]
fn traversal_rejected_even_without_source() {
    let pairs = vec![pair("/tmp/x/a.txt", "../outside/1.txt")];
    let exists = vec![false];
    let r = validate_batch(&pairs, &exists);
    assert!(!r.success);
}

#[test]
fn dotdot_token_rejected() {
    let pairs = vec![pair("/tmp/x/a.txt", "/tmp/x/a..txt")];
    let exists = vec![true];
    let r = validate_batch(&pairs, &exists);
    assert!(!r.success);
    let err = r.error.expect("an invalid-components error");
    assert!(matches!(err, RenameError::InvalidComponents));
    assert_eq!(err.message(), "Invalid path components detected");
}

#[test]
fn backslash_rejected() {
    let pairs = vec![pair("/tmp/x/a.txt", "/tmp/x/a\\b.txt")];
    let exists = vec![true];
    let r = validate_batch(&pairs, &exists);
    assert!(!r.success);
    assert!(matches!(r.error.expect("an invalid-components error"), RenameError::InvalidComponents));
}

#[test]
fn destination_deeper_in_tree_ok() {
    let pairs = vec![pair("/tmp/x/a.txt", "/tmp/x/sub/a.txt")];
    let exists = vec![true];
    let r = validate_batch(&pairs, &exists);
    assert!(r.success);
}

#[test]
fn conflict_reported_before_missing_source() {
    let pairs = vec![pair("/tmp/x/gone.txt", "/tmp/x/1.txt"), pair("/tmp/x/b.txt", "/tmp/x/1.txt")];
    let exists = vec![false, true];
    let r = validate_batch(&pairs, &exists);
    assert!(!r.success);
    assert!(matches!(r.error.expect("a conflict error"), RenameError::Conflict));
}

#[test]
fn earlier_traversal_reported_before_later_missing() {
    let pairs = vec![
        pair("/tmp/x/a.txt", "../outside/1.txt"),
        pair("/tmp/x/gone.txt", "/tmp/x/2.txt"),
    ];
    let exists = vec![true, false];
    let r = validate_batch(&pairs, &exists);
    assert!(!r.success);
    assert!(matches!(r.error.expect("a traversal error"), RenameError::Traversal));
}

#[test]
fn empty_batch_validates_ok() {
    let pairs: Vec<RenamePair> = Vec::new();
    let exists: Vec<bool> = Vec::new();
    let r = validate_batch(&pairs, &exists);
    assert!(r.success);
    assert!(r.error.is_none());
}

#[test]
fn undo_result_keeps_attempted_count() {
    let pairs = vec![pair("/tmp/x/1.txt", "/tmp/x/a.txt"), pair("/tmp/x/2.txt", "/tmp/x/b.txt")];
    let exists = vec![true, true];
    let ok = validate_batch(&pairs, &exists);
    let u = undo_result(ok, pairs.len());
    assert!(u.success);
    assert_eq!(u.restored_count, 2);
    assert!(u.error.is_none());
}

#[test]
fn undo_result_counts_even_on_failure() {
    let pairs = vec![pair("/tmp/x/gone.txt", "/tmp/x/a.txt")];
    let exists = vec![false];
    let failed = validate_batch(&pairs, &exists);
    let u = undo_result(failed, pairs.len());
    assert!(!u.success);
    assert_eq!(u.restored_count, 1);
    assert!(u.error.is_some());
}

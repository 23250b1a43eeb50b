use hornet::lifecycle::{JobRecord, JobState};
use hornet::scripts::{MoveToFinishedReturn, MoveToFinishedTarget, RetryJobReturn};

fn active(token: &str) -> JobRecord {
    let mut j = JobRecord::new();
    assert!(j.activate(token.to_string()));
    j
}

#[test]
fn activation_locks_and_counts() {
    let j = active("w:1");
    assert_eq!(j.state, JobState::Active);
    assert_eq!(j.lock, Some("w:1".to_string()));
    assert_eq!(j.attempts_started, 1);
    let mut j = j;
    assert!(!j.activate("w:2".to_string()));
    assert_eq!(j.lock, Some("w:1".to_string()));
}

#[test]
fn completion_with_the_lock() {
    let mut j = active("w:1");
    let r = j.finish(&"w:1".to_string(), MoveToFinishedTarget::Completed, "\"Done\"".to_string());
    assert_eq!(r, MoveToFinishedReturn::Success);
    assert_eq!(j.state, JobState::Completed);
    assert_eq!(j.returnvalue, Some("\"Done\"".to_string()));
    assert_eq!(j.lock, None);
}

#[test]
fn failure_with_the_lock() {
    let mut j = active("w:1");
    let r = j.finish(&"w:1".to_string(), MoveToFinishedTarget::Failed, "boom".to_string());
    assert_eq!(r, MoveToFinishedReturn::Success);
    assert_eq!(j.state, JobState::Failed);
    assert_eq!(j.failed_reason, Some("boom".to_string()));
    assert_eq!(j.returnvalue, None);
}

#[test]
fn finishing_under_another_lock_changes_nothing() {
    let mut j = active("w:1");
    let r = j.finish(&"w:2".to_string(), MoveToFinishedTarget::Completed, "x".to_string());
    assert_eq!(r, MoveToFinishedReturn::LockIsNotOwnedByThisClient);
    assert_eq!(j.state, JobState::Active);
    assert_eq!(j.lock, Some("w:1".to_string()));
    assert_eq!(j.returnvalue, None);
}

#[test]
fn finishing_without_a_lock_changes_nothing() {
    let mut j = JobRecord::new();
    let r = j.finish(&"w:1".to_string(), MoveToFinishedTarget::Failed, "x".to_string());
    assert_eq!(r, MoveToFinishedReturn::MissingLock);
    assert_eq!(j.state, JobState::Waiting);
    assert_eq!(j.failed_reason, None);
}

#[test]
fn finishing_twice_is_refused() {
    let mut j = active("w:1");
    j.finish(&"w:1".to_string(), MoveToFinishedTarget::Completed, "a".to_string());
    let r = j.finish(&"w:1".to_string(), MoveToFinishedTarget::Failed, "b".to_string());
    assert_eq!(r, MoveToFinishedReturn::MissingLock);
    assert_eq!(j.state, JobState::Completed);
}

#[test]
fn retry_returns_to_waiting() {
    let mut j = active("w:1");
    assert_eq!(j.retry(&"w:1".to_string()), RetryJobReturn::Success);
    assert_eq!(j.state, JobState::Waiting);
    assert_eq!(j.lock, None);
    assert!(j.activate("w:3".to_string()));
    assert_eq!(j.attempts_started, 2);
}

#[test]
fn retry_under_another_lock_changes_nothing() {
    let mut j = active("w:1");
    assert_eq!(j.retry(&"w:9".to_string()), RetryJobReturn::MissingLock);
    assert_eq!(j.state, JobState::Active);
    assert_eq!(j.lock, Some("w:1".to_string()));
}

use hornet::text::{chars_of, string_of};
use hornet::worker::{
    push_decimal, should_retry, slot_step, PoolAction, SlotAction, SlotEvent, SlotState, WorkerOptsBuilder,
    WorkerPool, WorkerToken,
};

#[test]
fn tokens_count_up() {
    let mut t = WorkerToken::with_instance("abc".to_string());
    assert!(t.has_next());
    assert_eq!(t.next(), "abc:1");
    assert_eq!(t.next(), "abc:2");
}

#[test]
fn random_instance_has_hyphenated_form() {
    let mut t = WorkerToken::new();
    let first = t.next();
    assert_eq!(first.len(), 38);
    assert!(first.ends_with(":1"));
    assert_eq!(first.matches('-').count(), 4);
    let other = WorkerToken::new().next();
    assert_ne!(first, other);
}

#[test]
fn decimal_rendering() {
    let mut s = String::new();
    push_decimal(&mut s, 0);
    assert_eq!(s, "0");
    let mut s = String::from("n=");
    push_decimal(&mut s, 1234567890);
    assert_eq!(s, "n=1234567890");
    let mut s = String::new();
    push_decimal(&mut s, u64::MAX);
    assert_eq!(s, u64::MAX.to_string());
}

#[test]
fn retry_ceiling() {
    assert!(!should_retry(Some(2), 3));
    assert!(should_retry(Some(1), 3));
    assert!(should_retry(None, 2));
    assert!(!should_retry(None, 1));
    assert!(!should_retry(None, 0));
    assert!(!should_retry(Some(u32::MAX), u32::MAX));
}

#[test]
fn slot_cycle() {
    let s = SlotState::Acquiring;
    let (s, a) = slot_step(s, SlotEvent::Acquired { attempts_made: None, max_attempts: 3 });
    assert_eq!(a, SlotAction::Process);
    let (s, a) = slot_step(s, SlotEvent::Processed);
    assert_eq!(a, SlotAction::Complete);
    let (s, a) = slot_step(s, SlotEvent::Resolved);
    assert_eq!(a, SlotAction::AcquireNext);
    let (s, a) = slot_step(s, SlotEvent::NoJob);
    assert_eq!(a, SlotAction::Release);
    assert_eq!(s, SlotState::Released);
}

#[test]
fn slot_fails_at_the_last_attempt() {
    let (s, _) = slot_step(SlotState::Acquiring, SlotEvent::Acquired { attempts_made: Some(2), max_attempts: 3 });
    let (s, a) = slot_step(s, SlotEvent::ProcessFailed);
    assert_eq!(a, SlotAction::Fail);
    assert_eq!(s, SlotState::Resolving);
}

#[test]
fn slot_retries_below_the_last_attempt() {
    let (s, _) = slot_step(SlotState::Acquiring, SlotEvent::Acquired { attempts_made: Some(1), max_attempts: 3 });
    let (_, a) = slot_step(s, SlotEvent::ProcessFailed);
    assert_eq!(a, SlotAction::Retry);
}

#[test]
fn slot_released_on_transport_error_while_acquiring() {
    let (s, a) = slot_step(SlotState::Acquiring, SlotEvent::TransportError);
    assert_eq!(a, SlotAction::Release);
    assert_eq!(s, SlotState::Released);
    let (_, a) = slot_step(SlotState::Resolving, SlotEvent::TransportError);
    assert_eq!(a, SlotAction::AcquireNext);
}

#[test]
fn pool_never_exceeds_concurrency() {
    let mut p = WorkerPool::new(2, WorkerToken::with_instance("w".to_string()));
    assert_eq!(p.next_action(), PoolAction::StartSlot);
    assert_eq!(p.start_slot(), Some("w:1".to_string()));
    assert_eq!(p.start_slot(), Some("w:2".to_string()));
    assert_eq!(p.active_tasks(), 2);
    assert_eq!(p.next_action(), PoolAction::WaitForFreed);
    assert_eq!(p.start_slot(), None);
    assert_eq!(p.active_tasks(), 2);
    p.slot_freed();
    assert_eq!(p.active_tasks(), 1);
    assert_eq!(p.next_action(), PoolAction::WaitForMarker);
    assert_eq!(p.start_slot(), None);
    p.marker_wait_ended(false);
    assert_eq!(p.next_action(), PoolAction::WaitForMarker);
    p.marker_wait_ended(true);
    assert_eq!(p.next_action(), PoolAction::StartSlot);
    assert_eq!(p.start_slot(), Some("w:3".to_string()));
    assert_eq!(p.active_tasks(), 2);
}

#[test]
fn spurious_free_signal_changes_nothing() {
    let mut p = WorkerPool::new(1, WorkerToken::with_instance("w".to_string()));
    p.slot_freed();
    assert_eq!(p.active_tasks(), 0);
    assert_eq!(p.next_action(), PoolAction::StartSlot);
}

#[test]
fn pool_of_no_slots_never_starts() {
    let mut p = WorkerPool::new(0, WorkerToken::with_instance("w".to_string()));
    assert_eq!(p.next_action(), PoolAction::WaitForFreed);
    assert_eq!(p.start_slot(), None);
}

#[test]
fn worker_options_defaults() {
    let o = WorkerOptsBuilder::new().build();
    assert_eq!(o.concurrency, 1);
    assert_eq!(o.retry, 0);
    let o = WorkerOptsBuilder::new().concurrency(4).retry(2).build();
    assert_eq!(o.concurrency, 4);
    assert_eq!(o.retry, 2);
}

#[test]
fn text_round_trip() {
    let v = chars_of("añb");
    assert_eq!(v, vec!['a', 'ñ', 'b']);
    assert_eq!(string_of(&v), "añb");
}

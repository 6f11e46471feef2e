use waitstore::backend::MemBackend;
use waitstore::error::StoreError;
use waitstore::waitloop::{WaitAction, WaitEvent, WaitLoop};

#[test]
fn present_key_is_delivered_without_suspending() {
    let mut backend = MemBackend::open();
    backend.upsert("alpha".to_string(), vec![7, 7]).unwrap();
    let mut wait = WaitLoop::begin();
    assert_eq!(wait.next_action(), WaitAction::Subscribe);
    assert!(wait.step(WaitEvent::Subscribed));
    assert_eq!(wait.next_action(), WaitAction::Check);
    let found = backend.lookup("alpha").unwrap();
    assert!(wait.step(WaitEvent::Checked(Ok(found))));
    assert_eq!(wait.next_action(), WaitAction::Finish);
    assert_eq!(wait.into_outcome(), Some(Ok(vec![7, 7])));
}

#[test]
fn wakeup_after_write_delivers_value() {
    let mut backend = MemBackend::open();
    let mut wait = WaitLoop::begin();
    // First round: subscribe, then look up; the key is absent, so suspend.
    assert_eq!(wait.next_action(), WaitAction::Subscribe);
    assert!(wait.step(WaitEvent::Subscribed));
    assert_eq!(wait.next_action(), WaitAction::Check);
    let first = backend.lookup("alpha").unwrap();
    assert_eq!(first, None);
    assert!(wait.step(WaitEvent::Checked(Ok(first))));
    assert_eq!(wait.next_action(), WaitAction::Suspend);
    // A write commits and fires the notifier: the suspension ends.
    backend.upsert("alpha".to_string(), vec![1, 2]).unwrap();
    assert!(wait.step(WaitEvent::Woken));
    // Second round: a fresh subscription strictly before the re-check.
    assert_eq!(wait.next_action(), WaitAction::Subscribe);
    assert!(wait.step(WaitEvent::Subscribed));
    assert_eq!(wait.next_action(), WaitAction::Check);
    let second = backend.lookup("alpha").unwrap();
    assert!(wait.step(WaitEvent::Checked(Ok(second))));
    assert_eq!(wait.next_action(), WaitAction::Finish);
    assert_eq!(wait.into_outcome(), Some(Ok(vec![1, 2])));
}

#[test]
fn write_to_other_key_does_not_satisfy_wait() {
    let mut backend = MemBackend::open();
    let mut wait = WaitLoop::begin();
    assert!(wait.step(WaitEvent::Subscribed));
    let first = backend.lookup("alpha").unwrap();
    assert!(wait.step(WaitEvent::Checked(Ok(first))));
    assert_eq!(wait.next_action(), WaitAction::Suspend);
    // A write to a different key wakes every waiter...
    backend.upsert("beta".to_string(), vec![5]).unwrap();
    assert!(wait.step(WaitEvent::Woken));
    // ...but the re-check still finds "alpha" absent, so the loop waits on.
    assert!(wait.step(WaitEvent::Subscribed));
    let second = backend.lookup("alpha").unwrap();
    assert_eq!(second, None);
    assert!(wait.step(WaitEvent::Checked(Ok(second))));
    assert_eq!(wait.next_action(), WaitAction::Suspend);
}

#[test]
fn lookup_failure_ends_the_loop_with_that_error() {
    let mut wait = WaitLoop::begin();
    assert!(wait.step(WaitEvent::Subscribed));
    assert_eq!(wait.next_action(), WaitAction::Check);
    assert!(wait.step(WaitEvent::Checked(Err(StoreError::ReadFailure))));
    assert_eq!(wait.next_action(), WaitAction::Finish);
    assert_eq!(wait.into_outcome(), Some(Err(StoreError::ReadFailure)));
}

#[test]
fn event_out_of_order_is_rejected() {
    let mut wait = WaitLoop::begin();
    // The loop asked for a subscription; a wakeup or a lookup result is
    // out of order and must change nothing.
    assert!(!wait.step(WaitEvent::Woken));
    assert!(!wait.step(WaitEvent::Checked(Ok(None))));
    assert_eq!(wait.next_action(), WaitAction::Subscribe);
    assert!(wait.step(WaitEvent::Subscribed));
    assert!(!wait.step(WaitEvent::Subscribed));
    assert_eq!(wait.next_action(), WaitAction::Check);
}

#[test]
fn outcome_is_none_while_in_progress() {
    let mut wait = WaitLoop::begin();
    assert!(wait.step(WaitEvent::Subscribed));
    assert_eq!(wait.into_outcome(), None);
}

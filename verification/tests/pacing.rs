use file_transfer::pacing::{after_read, idle_step, reached_end, worker_count, IdleAction, IdleEvent, ReadStep};

#[test]
fn worker_count_is_clamped() {
    assert_eq!(worker_count(None), 4);
    assert_eq!(worker_count(Some(1)), 4);
    assert_eq!(worker_count(Some(8)), 8);
    assert_eq!(worker_count(Some(64)), 16);
}

#[test]
fn idle_loop_waits_until_the_deadline() {
    assert!(matches!(idle_step(300, IdleEvent::Tick { elapsed_nanos: 0 }), IdleAction::WaitFor { nanos } if nanos == 300_000_000_000));
    assert!(matches!(idle_step(300, IdleEvent::Tick { elapsed_nanos: 299_000_000_000 }), IdleAction::WaitFor { nanos } if nanos == 1_000_000_000));
    assert!(matches!(idle_step(300, IdleEvent::Tick { elapsed_nanos: 300_000_000_000 }), IdleAction::ShutDown));
    assert!(matches!(idle_step(0, IdleEvent::Tick { elapsed_nanos: 0 }), IdleAction::ShutDown));
    assert!(matches!(idle_step(5, IdleEvent::Received), IdleAction::HandleRequest));
    assert!(matches!(idle_step(5, IdleEvent::NothingReceived), IdleAction::ShutDown));
    assert!(matches!(idle_step(5, IdleEvent::ReceiveFailed), IdleAction::Fail));
}

#[test]
fn growing_reader_steps() {
    assert!(matches!(after_read(7, false), ReadStep::Deliver(7)));
    assert!(matches!(after_read(0, true), ReadStep::CheckEnd));
    assert!(matches!(after_read(0, false), ReadStep::Retry));
    assert!(reached_end(10, 10));
    assert!(!reached_end(9, 10));
}

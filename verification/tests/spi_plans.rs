use anachro::spi::{
    arbitrator_completion, arbitrator_next, arbitrator_query, arbitrator_plan, arbitrator_settle, arbitrator_timed_out, ArbSettle,
    component_completion, component_next, component_plan, component_start, ArbAction, ArbState,
    ComponentAction, ComponentStart, ComponentState, Completion, Error, QueueError,
};

#[test]
fn component_start_rules() {
    assert_eq!(
        component_start(&Err(Error::GpioError), &Ok(true)),
        ComponentStart::Halt { abort: false }
    );
    assert_eq!(
        component_start(&Ok(true), &Err(Error::SpiError)),
        ComponentStart::Halt { abort: false }
    );
    assert_eq!(component_start(&Ok(false), &Ok(true)), ComponentStart::Halt { abort: true });
    assert_eq!(component_start(&Ok(false), &Ok(false)), ComponentStart::Halt { abort: false });
    assert_eq!(component_start(&Ok(true), &Ok(true)), ComponentStart::Complete);
    assert_eq!(component_start(&Ok(true), &Ok(false)), ComponentStart::Continue);
}

#[test]
fn completion_rules() {
    assert_eq!(component_completion(&Ok(4)), Completion::Done(4));
    assert_eq!(component_completion(&Err(Error::TransactionBusy)), Completion::Pending);
    assert_eq!(component_completion(&Err(Error::TransactionAborted)), Completion::Failed);
    assert_eq!(arbitrator_completion(&Err(Error::TransactionAborted)), Completion::Aborted);
    assert_eq!(arbitrator_completion(&Err(Error::TransactionBusy)), Completion::Pending);
    assert_eq!(
        arbitrator_completion(&Err(Error::BBQueueError(QueueError::InsufficientSize))),
        Completion::Failed
    );
    assert_eq!(arbitrator_completion(&Ok(12)), Completion::Done(12));
    assert_eq!(Error::from(QueueError::GrantInProgress), Error::BBQueueError(QueueError::GrantInProgress));
}

#[test]
fn component_full_exchange() {
    // Idle: raise CSn and start waiting
    let p = component_plan(ComponentState::Idle, None, false, 0, 0);
    assert_eq!(p.action, ComponentAction::NotifyCsn);
    let s = component_next(p, 100);
    assert_eq!(s, ComponentState::HeaderStart(100));

    // Not waited long enough: nothing happens
    let p = component_plan(s, None, false, 0, 0);
    assert_eq!(p.action, ComponentAction::Nothing);
    assert_eq!(component_next(p, 150), ComponentState::HeaderStart(100));

    // Waited: begin the header exchange
    let p = component_plan(s, None, true, 0, 0);
    assert_eq!(p.action, ComponentAction::BeginHeader);
    let s = component_next(p, 2000);
    assert_eq!(s, ComponentState::HeaderXfer);

    // Header completed with 8 bytes to receive
    let p = component_plan(s, Some(4), false, 8, 0);
    assert_eq!(p.action, ComponentAction::ClearCsn);
    let s = component_next(p, 3000);
    assert_eq!(s, ComponentState::HeaderComplete(3000));

    let p = component_plan(s, None, true, 8, 0);
    assert_eq!(p.action, ComponentAction::NotifyCsn);
    let s = component_next(p, 4100);
    assert_eq!(s, ComponentState::BodyStart(4100));

    let p = component_plan(s, None, true, 8, 0);
    assert_eq!(p.action, ComponentAction::BeginBody { in_len: 8 });
    let s = component_next(p, 5200);
    assert_eq!(s, ComponentState::BodyXfer);

    let p = component_plan(s, Some(8), false, 8, 0);
    assert_eq!(p.action, ComponentAction::FinishBody { amt: 8 });
    let s = component_next(p, 6000);
    assert_eq!(s, ComponentState::BodyComplete(6000));

    let p = component_plan(s, None, true, 8, 0);
    assert_eq!(p.action, ComponentAction::NotifyCsn);
    assert_eq!(component_next(p, 7100), ComponentState::HeaderStart(7100));
}

#[test]
fn component_gives_up_bad_exchanges() {
    // A short header
    let p = component_plan(ComponentState::HeaderXfer, Some(3), false, 8, 8);
    assert_eq!(p.action, ComponentAction::ClearCsn);
    assert_eq!(p.next, ComponentState::Idle);
    // Nothing to exchange
    let p = component_plan(ComponentState::HeaderXfer, Some(4), false, 0, 0);
    assert_eq!(p.next, ComponentState::Idle);
    // Too large an incoming body
    let p = component_plan(ComponentState::BodyStart(0), None, true, 4097, 0);
    assert_eq!(p.action, ComponentAction::ClearCsn);
    assert_eq!(p.next, ComponentState::Idle);
    let p = component_plan(ComponentState::BodyStart(0), None, true, 4096, 0);
    assert_eq!(p.action, ComponentAction::BeginBody { in_len: 4096 });
}

#[test]
fn arbitrator_full_exchange() {
    let s = ArbState::HeaderStart { t_window: 10, t_step: 10 };
    let p = arbitrator_plan(s, None, 0, 0);
    assert_eq!(p.action, ArbAction::PrepareHeader);
    let s = arbitrator_next(p, false, 20);
    assert_eq!(s, ArbState::HeaderPrepped { t_window: 10, t_step: 20 });

    let p = arbitrator_plan(s, None, 0, 0);
    assert_eq!(p.action, ArbAction::CheckBegun);
    assert_eq!(arbitrator_next(p, false, 30), s);
    let s = arbitrator_next(p, true, 30);
    assert_eq!(s, ArbState::HeaderXfer { t_window: 10 });

    let p = arbitrator_plan(s, Some(4), 0, 6);
    assert_eq!(p.action, ArbAction::PrepareBody { in_len: 0 });
    let s = arbitrator_next(p, false, 40);
    assert_eq!(s, ArbState::BodyPrepped { t_window: 10, t_step: 40 });

    let p = arbitrator_plan(s, None, 0, 6);
    let s = arbitrator_next(p, true, 50);
    assert_eq!(s, ArbState::BodyXfer { t_window: 10 });

    let p = arbitrator_plan(s, Some(6), 0, 6);
    assert_eq!(p.action, ArbAction::FinishBody { amt: 6 });
    assert_eq!(arbitrator_next(p, false, 60), ArbState::HeaderStart { t_window: 60, t_step: 60 });
}

#[test]
fn arbitrator_gives_up_bad_exchanges() {
    let s = ArbState::HeaderXfer { t_window: 1 };
    assert_eq!(arbitrator_plan(s, Some(2), 1, 1).next, ArbState::Idle);
    assert_eq!(arbitrator_plan(s, Some(4), 0, 0).action, ArbAction::ClearGo);
    assert_eq!(arbitrator_plan(s, Some(4), 5000, 0).next, ArbState::Idle);
    assert_eq!(arbitrator_plan(s, None, 5000, 0).next, s);
    assert_eq!(arbitrator_plan(ArbState::Idle, Some(4), 1, 1).action, ArbAction::Nothing);
}

#[test]
fn arbitrator_timeouts() {
    let s = ArbState::HeaderPrepped { t_window: 0, t_step: 0 };
    assert!(!arbitrator_timed_out(&s, 1_000_000, 500_000));
    assert!(arbitrator_timed_out(&s, 1_000_001, 0));
    assert!(arbitrator_timed_out(&s, 0, 500_001));
    let x = ArbState::BodyXfer { t_window: 0 };
    assert!(!arbitrator_timed_out(&x, 1_000_000, 900_000));
    assert!(arbitrator_timed_out(&x, 1_000_001, 0));
    assert!(!arbitrator_timed_out(&ArbState::Idle, u32::MAX, u32::MAX));
    assert_eq!(s.window_start(), Some(0));
    assert_eq!(x.step_start(), None);
    assert_eq!(ArbState::Idle.window_start(), None);
}

#[test]
fn arbitrator_query_starts_only_when_idle() {
    assert_eq!(
        arbitrator_query(ArbState::Idle, 77),
        Ok(ArbState::HeaderStart { t_window: 77, t_step: 77 })
    );
    assert_eq!(
        arbitrator_query(ArbState::HeaderXfer { t_window: 1 }, 77),
        Err(Error::IncorrectState)
    );
}

#[test]
fn arbitrator_settle_rules() {
    let st = ArbState::HeaderXfer { t_window: 5 };
    // A driver error releases GO, and the Arbitrator is idle
    assert_eq!(
        arbitrator_settle(st, &Err(Error::GpioError), None, 0, 0),
        (ArbSettle::ClearGo, ArbState::Idle)
    );
    assert_eq!(
        arbitrator_settle(st, &Ok(true), Some(Completion::Aborted), 0, 0),
        (ArbSettle::ClearGo, ArbState::Idle)
    );
    assert_eq!(
        arbitrator_settle(st, &Ok(true), Some(Completion::Failed), 0, 0),
        (ArbSettle::AbortAndClearGo, ArbState::Idle)
    );
    // A timed out exchange is aborted and the Arbitrator is idle
    assert_eq!(
        arbitrator_settle(st, &Ok(true), Some(Completion::Pending), 1_000_001, 0),
        (ArbSettle::TimedOut, ArbState::Idle)
    );
    assert_eq!(
        arbitrator_settle(st, &Ok(false), None, 1_000_001, 0),
        (ArbSettle::TimedOut, ArbState::Idle)
    );
    // Within the window the plan goes on, with what completed
    assert_eq!(
        arbitrator_settle(st, &Ok(true), Some(Completion::Done(4)), 10, 0),
        (ArbSettle::Proceed(Some(4)), st)
    );
    assert_eq!(arbitrator_settle(st, &Ok(false), None, 10, 0), (ArbSettle::Proceed(None), st));
}

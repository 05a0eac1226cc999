use app_proxy::flows::{
    confirmation_precheck, port_decision, start_step, update_step, ConfirmFailure, PortDecision, StartCleanup,
    StartPhase, StartStep, UpdateEvent, UpdatePhase, UpdateStep, PORT_ATTEMPTS,
};
use app_proxy::helper::ProcessPoll;
use app_proxy::text::{decimal_string, from_chars, lower_ascii, to_chars};

#[test]
fn a_successful_start_runs_every_step_in_order() {
    let mut phase = StartPhase::CheckApiPort;
    let mut seen = vec![phase];
    loop {
        match start_step(phase, true) {
            StartStep::Next(next) => {
                phase = next;
                seen.push(next);
            }
            StartStep::Started => break,
            StartStep::Abort(_) => panic!("no step failed"),
        }
    }
    assert_eq!(seen.len(), 15);
    assert_eq!(seen[4], StartPhase::StageListeners);
    assert_eq!(*seen.last().unwrap(), StartPhase::Verify);
}

#[test]
fn a_failed_start_undoes_what_it_holds() {
    assert_eq!(start_step(StartPhase::CheckApiPort, false), StartStep::Abort(StartCleanup::Nothing));
    assert_eq!(start_step(StartPhase::CompileRules, false), StartStep::Abort(StartCleanup::Nothing));
    assert_eq!(start_step(StartPhase::StageListeners, false), StartStep::Abort(StartCleanup::WithdrawListeners));
    assert_eq!(start_step(StartPhase::Prepare, false), StartStep::Abort(StartCleanup::WithdrawListeners));
    assert_eq!(start_step(StartPhase::Spawn, false), StartStep::Abort(StartCleanup::RemoveCredentialAndWithdraw));
    assert_eq!(start_step(StartPhase::AwaitReady, false), StartStep::Abort(StartCleanup::AbandonHelper));
    assert_eq!(start_step(StartPhase::StoreRules, false), StartStep::Abort(StartCleanup::AbandonHelper));
    assert_eq!(start_step(StartPhase::Verify, false), StartStep::Abort(StartCleanup::StopHelper));
}

fn run_update(events: &[UpdateEvent], current: u64) -> (UpdateStep, usize) {
    let mut phase = UpdatePhase::Staging;
    for (i, e) in events.iter().enumerate() {
        match update_step(phase, *e, current) {
            UpdateStep::Next(p) => phase = p,
            done => return (done, i + 1),
        }
    }
    panic!("update did not end");
}

#[test]
fn an_update_commits_the_accepted_version() {
    let events = [
        UpdateEvent::Succeeded,
        UpdateEvent::Accepted { version: 8 },
        UpdateEvent::Succeeded,
        UpdateEvent::Succeeded,
        UpdateEvent::Succeeded,
    ];
    assert_eq!(run_update(&events, 7), (UpdateStep::Done { version: 8 }, 5));
}

#[test]
fn a_confirmed_refusal_restores_the_listeners() {
    let events = [UpdateEvent::Succeeded, UpdateEvent::Refused { observed: Some(7) }, UpdateEvent::Succeeded];
    assert_eq!(run_update(&events, 7).0, UpdateStep::Abort { faulted: false, record_version: None });
    let events = [UpdateEvent::Succeeded, UpdateEvent::Refused { observed: Some(9) }];
    assert_eq!(run_update(&events, 7).0, UpdateStep::Abort { faulted: true, record_version: None });
    let events = [UpdateEvent::Succeeded, UpdateEvent::Refused { observed: None }];
    assert_eq!(run_update(&events, 7).0, UpdateStep::Abort { faulted: true, record_version: None });
}

#[test]
fn uncertain_updates_fault_the_helper() {
    let uncertain = [UpdateEvent::Succeeded, UpdateEvent::Failed];
    assert_eq!(run_update(&uncertain, 1).0, UpdateStep::Abort { faulted: true, record_version: None });
    let unconfirmed = [UpdateEvent::Succeeded, UpdateEvent::Accepted { version: 2 }, UpdateEvent::Failed];
    assert_eq!(run_update(&unconfirmed, 1).0, UpdateStep::Abort { faulted: true, record_version: None });
    let staging_then_restore_fails = [UpdateEvent::Failed, UpdateEvent::Failed];
    assert_eq!(run_update(&staging_then_restore_fails, 1).0, UpdateStep::Abort { faulted: true, record_version: None });
    let retire_fails = [
        UpdateEvent::Succeeded,
        UpdateEvent::Accepted { version: 2 },
        UpdateEvent::Succeeded,
        UpdateEvent::Succeeded,
        UpdateEvent::Failed,
    ];
    assert_eq!(run_update(&retire_fails, 1).0, UpdateStep::Abort { faulted: true, record_version: None });
}

#[test]
fn a_persistence_failure_rolls_back() {
    let events = [
        UpdateEvent::Succeeded,
        UpdateEvent::Accepted { version: 2 },
        UpdateEvent::Succeeded,
        UpdateEvent::Failed,
        UpdateEvent::Accepted { version: 3 },
        UpdateEvent::Succeeded,
        UpdateEvent::Succeeded,
    ];
    assert_eq!(run_update(&events, 1), (UpdateStep::Abort { faulted: false, record_version: Some(3) }, 7));
    let rollback_refused = [
        UpdateEvent::Succeeded,
        UpdateEvent::Accepted { version: 2 },
        UpdateEvent::Succeeded,
        UpdateEvent::Failed,
        UpdateEvent::Refused { observed: Some(2) },
    ];
    assert_eq!(run_update(&rollback_refused, 1).0, UpdateStep::Abort { faulted: true, record_version: None });
}

#[test]
fn a_staging_failure_restores() {
    let events = [UpdateEvent::Failed, UpdateEvent::Succeeded];
    assert_eq!(run_update(&events, 5), (UpdateStep::Abort { faulted: false, record_version: None }, 2));
}

#[test]
fn port_allocation_attempts() {
    assert_eq!(port_decision(0, true), PortDecision::Use);
    assert_eq!(port_decision(0, false), PortDecision::Retry);
    assert_eq!(port_decision(30, false), PortDecision::Retry);
    assert_eq!(port_decision(PORT_ATTEMPTS - 1, false), PortDecision::GiveUp);
    assert_eq!(port_decision(PORT_ATTEMPTS - 1, true), PortDecision::Use);
}

#[test]
fn confirmation_prechecks() {
    assert_eq!(confirmation_precheck(ProcessPoll::Running, false), Ok(()));
    assert_eq!(confirmation_precheck(ProcessPoll::Running, true), Err(ConfirmFailure::DeadlinePassed));
    assert_eq!(confirmation_precheck(ProcessPoll::Exited { code: 2 }, false), Err(ConfirmFailure::Exited { code: 2 }));
    assert_eq!(
        confirmation_precheck(ProcessPoll::QueryFailed { message: "denied".into() }, false),
        Err(ConfirmFailure::ProcessQueryFailed { message: "denied".into() })
    );
}

#[test]
fn text_helpers() {
    assert_eq!(decimal_string(0), "0");
    assert_eq!(decimal_string(18080), "18080");
    assert_eq!(decimal_string(u64::MAX), u64::MAX.to_string());
    let chars = to_chars("Node.EXE é");
    assert_eq!(from_chars(&lower_ascii(&chars)), "node.exe é");
    assert_eq!(from_chars(&Vec::new()), "");
}

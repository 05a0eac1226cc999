//! The step-by-step sequences of the controller as state machines: the
//! runtime performs each step's outside work (Mihomo reloads, file writes,
//! helper requests) and reports how it went; these functions say what
//! comes next and what must be undone.
use vstd::prelude::*;

use crate::helper::{recovery_after_rejection, ProcessPoll, RejectionRecovery};

verus! {

/// The steps of a start, in the order they run.
#[derive(Clone, Copy, Debug, PartialEq, Eq, Structural)]
pub enum StartPhase {
    /// The helper API port must be free.
    CheckApiPort,
    /// Every required group must be a strategy group of the active profile.
    BindGroups,
    /// Ports and names for the primary and the extra listeners.
    AllocateListeners,
    /// Rules and proxy groups for the helper.
    CompileRules,
    /// The desired listeners are published, then each is configured,
    /// confirmed loaded and reachable.
    StageListeners,
    /// The primary listener must accept connections.
    CheckPrimaryListener,
    /// Helper path, helper configuration and the start's credential file.
    Prepare,
    /// The elevated helper process.
    Spawn,
    /// The HTTP client for the helper API.
    ConnectClient,
    /// The helper reports readiness.
    AwaitReady,
    /// The compiled rules are published at revision 0.
    PublishRules,
    /// The helper exposes the published rules.
    ConfirmRules,
    /// The rules are saved.
    PersistRules,
    /// The rules become the stored rules and the helper is recorded as running.
    StoreRules,
    /// The controller reports full readiness.
    Verify,
}

/// What a failed start undoes.
#[derive(Clone, Copy, Debug, PartialEq, Eq, Structural)]
pub enum StartCleanup {
    Nothing,
    /// Drop the managed listeners from the desired list and from Mihomo.
    WithdrawListeners,
    /// Also remove the start's credential file.
    RemoveCredentialAndWithdraw,
    /// Also kill and reap the spawned helper.
    AbandonHelper,
    /// Stop the recorded helper as a stop request does.
    StopHelper,
}

/// What follows a step of a start.
#[derive(Clone, Copy, Debug, PartialEq, Eq, Structural)]
pub enum StartStep {
    Next(StartPhase),
    /// The helper runs with the rules in force.
    Started,
    /// The start failed; undo as given.
    Abort(StartCleanup),
}

/// Position of a step in the sequence.
pub open spec fn start_rank(p: StartPhase) -> nat {
    match p {
        StartPhase::CheckApiPort => 0,
        StartPhase::BindGroups => 1,
        StartPhase::AllocateListeners => 2,
        StartPhase::CompileRules => 3,
        StartPhase::StageListeners => 4,
        StartPhase::CheckPrimaryListener => 5,
        StartPhase::Prepare => 6,
        StartPhase::Spawn => 7,
        StartPhase::ConnectClient => 8,
        StartPhase::AwaitReady => 9,
        StartPhase::PublishRules => 10,
        StartPhase::ConfirmRules => 11,
        StartPhase::PersistRules => 12,
        StartPhase::StoreRules => 13,
        StartPhase::Verify => 14,
    }
}

/// While this step runs, the managed listeners are in the desired list
/// (published at the start of staging).
pub open spec fn holds_listeners(p: StartPhase) -> bool {
    start_rank(p) >= start_rank(StartPhase::StageListeners)
}

/// While this step runs, the start's credential file exists (written by
/// the preparation step).
pub open spec fn holds_credential(p: StartPhase) -> bool {
    start_rank(p) >= start_rank(StartPhase::Spawn)
}

/// While this step runs, a helper process of this start exists.
pub open spec fn holds_process(p: StartPhase) -> bool {
    start_rank(p) >= start_rank(StartPhase::ConnectClient)
}

/// While this step runs, the helper is recorded as this controller's.
pub open spec fn holds_record(p: StartPhase) -> bool {
    p == StartPhase::Verify
}

pub open spec fn withdraws_listeners(c: StartCleanup) -> bool {
    c != StartCleanup::Nothing
}

pub open spec fn removes_credential(c: StartCleanup) -> bool {
    c == StartCleanup::RemoveCredentialAndWithdraw || c == StartCleanup::AbandonHelper || c
        == StartCleanup::StopHelper
}

pub open spec fn stops_process(c: StartCleanup) -> bool {
    c == StartCleanup::AbandonHelper || c == StartCleanup::StopHelper
}

pub open spec fn clears_record(c: StartCleanup) -> bool {
    c == StartCleanup::StopHelper
}

/// After `phase`: on success the next step (or `Started` after the last);
/// on failure an abort that undoes exactly what the start holds at that
/// step.
pub fn start_step(phase: StartPhase, succeeded: bool) -> (r: StartStep)
    ensures
        succeeded && phase == StartPhase::Verify ==> r == StartStep::Started,
        succeeded && phase != StartPhase::Verify ==> (r matches StartStep::Next(q) && start_rank(q)
            == start_rank(phase) + 1),
        !succeeded ==> (r matches StartStep::Abort(c) && withdraws_listeners(c) == holds_listeners(phase)
            && removes_credential(c) == holds_credential(phase) && stops_process(c) == holds_process(phase)
            && clears_record(c) == holds_record(phase)),
{
    if succeeded {
        match phase {
            StartPhase::CheckApiPort => StartStep::Next(StartPhase::BindGroups),
            StartPhase::BindGroups => StartStep::Next(StartPhase::AllocateListeners),
            StartPhase::AllocateListeners => StartStep::Next(StartPhase::CompileRules),
            StartPhase::CompileRules => StartStep::Next(StartPhase::StageListeners),
            StartPhase::StageListeners => StartStep::Next(StartPhase::CheckPrimaryListener),
            StartPhase::CheckPrimaryListener => StartStep::Next(StartPhase::Prepare),
            StartPhase::Prepare => StartStep::Next(StartPhase::Spawn),
            StartPhase::Spawn => StartStep::Next(StartPhase::ConnectClient),
            StartPhase::ConnectClient => StartStep::Next(StartPhase::AwaitReady),
            StartPhase::AwaitReady => StartStep::Next(StartPhase::PublishRules),
            StartPhase::PublishRules => StartStep::Next(StartPhase::ConfirmRules),
            StartPhase::ConfirmRules => StartStep::Next(StartPhase::PersistRules),
            StartPhase::PersistRules => StartStep::Next(StartPhase::StoreRules),
            StartPhase::StoreRules => StartStep::Next(StartPhase::Verify),
            StartPhase::Verify => StartStep::Started,
        }
    } else {
        match phase {
            StartPhase::CheckApiPort | StartPhase::BindGroups | StartPhase::AllocateListeners
            | StartPhase::CompileRules => StartStep::Abort(StartCleanup::Nothing),
            StartPhase::StageListeners | StartPhase::CheckPrimaryListener | StartPhase::Prepare => {
                StartStep::Abort(StartCleanup::WithdrawListeners)
            },
            StartPhase::Spawn => StartStep::Abort(StartCleanup::RemoveCredentialAndWithdraw),
            StartPhase::Verify => StartStep::Abort(StartCleanup::StopHelper),
            _ => StartStep::Abort(StartCleanup::AbandonHelper),
        }
    }
}

/// Where a rule update against a running helper stands.
#[derive(Clone, Copy, Debug, PartialEq, Eq, Structural)]
pub enum UpdatePhase {
    /// The desired list holds every listener; the staged ones are
    /// configured and confirmed, then the HTTP client is built.
    Staging,
    /// The new rules are sent, expecting the current revision.
    Publishing,
    /// The helper must expose the new rules at `version`.
    Confirming { version: u64 },
    /// The new rules are saved.
    Persisting { version: u64 },
    /// Saving failed: the previous rules are sent again, expecting `version`.
    RollingBack { version: u64 },
    /// The helper must expose the previous rules at `version`.
    ConfirmingRollback { version: u64 },
    /// The previous listeners come back: the desired list is reset and the
    /// staged listeners removed; on success the update ends with
    /// `adopt_version` as the helper's revision, if given.
    Restoring { adopt_version: Option<u64> },
    /// The new rules are in force at `version` (stored, recorded, desired
    /// list updated); listeners no longer required are removed.
    Retiring { version: u64 },
}

/// How a step of a rule update went.
#[derive(Clone, Copy, Debug, PartialEq, Eq, Structural)]
pub enum UpdateEvent {
    /// The step did what it was asked.
    Succeeded,
    /// The step failed (for a publication: its outcome is unknown).
    Failed,
    /// The helper accepted a publication at this effective version.
    Accepted { version: u64 },
    /// The helper refused a publication (HTTP 400); the rules revision it
    /// reported afterwards.
    Refused { observed: Option<u64> },
}

/// What follows a step of a rule update.
#[derive(Clone, Copy, Debug, PartialEq, Eq, Structural)]
pub enum UpdateStep {
    Next(UpdatePhase),
    /// The new rules are in force at `version`.
    Done { version: u64 },
    /// The update failed. `faulted`: the helper's state is unknown, it is
    /// marked failed and will be stopped. `record_version`: the revision to record
    /// for the helper, if it changed.
    Abort { faulted: bool, record_version: Option<u64> },
}

/// How far a phase is from the end of an update; every step lowers it.
pub open spec fn update_rank(p: UpdatePhase) -> nat {
    match p {
        UpdatePhase::Staging => 8,
        UpdatePhase::Publishing => 7,
        UpdatePhase::Confirming { .. } => 6,
        UpdatePhase::Persisting { .. } => 5,
        UpdatePhase::RollingBack { .. } => 4,
        UpdatePhase::ConfirmingRollback { .. } => 3,
        UpdatePhase::Restoring { .. } => 2,
        UpdatePhase::Retiring { .. } => 1,
    }
}

/// The step table of a rule update; `current_version` is the helper's
/// revision before the update.
pub open spec fn update_next(phase: UpdatePhase, event: UpdateEvent, current_version: u64) -> UpdateStep {
    let faulted = UpdateStep::Abort { faulted: true, record_version: None };
    match phase {
        UpdatePhase::Staging => if event == UpdateEvent::Succeeded {
            UpdateStep::Next(UpdatePhase::Publishing)
        } else {
            UpdateStep::Next(UpdatePhase::Restoring { adopt_version: None })
        },
        UpdatePhase::Publishing => match event {
            UpdateEvent::Accepted { version } => UpdateStep::Next(UpdatePhase::Confirming { version }),
            UpdateEvent::Refused { observed } => if observed == Some(current_version) {
                UpdateStep::Next(UpdatePhase::Restoring { adopt_version: None })
            } else {
                faulted
            },
            _ => faulted,
        },
        UpdatePhase::Confirming { version } => if event == UpdateEvent::Succeeded {
            UpdateStep::Next(UpdatePhase::Persisting { version })
        } else {
            faulted
        },
        UpdatePhase::Persisting { version } => if event == UpdateEvent::Succeeded {
            UpdateStep::Next(UpdatePhase::Retiring { version })
        } else {
            UpdateStep::Next(UpdatePhase::RollingBack { version })
        },
        UpdatePhase::RollingBack { .. } => match event {
            UpdateEvent::Accepted { version } => UpdateStep::Next(UpdatePhase::ConfirmingRollback { version }),
            _ => faulted,
        },
        UpdatePhase::ConfirmingRollback { version } => if event == UpdateEvent::Succeeded {
            UpdateStep::Next(UpdatePhase::Restoring { adopt_version: Some(version) })
        } else {
            faulted
        },
        UpdatePhase::Restoring { adopt_version } => if event == UpdateEvent::Succeeded {
            UpdateStep::Abort { faulted: false, record_version: adopt_version }
        } else {
            faulted
        },
        UpdatePhase::Retiring { version } => if event == UpdateEvent::Succeeded {
            UpdateStep::Done { version }
        } else {
            faulted
        },
    }
}

/// The step after `phase` given `event`.
pub fn update_step(phase: UpdatePhase, event: UpdateEvent, current_version: u64) -> (r: UpdateStep)
    ensures
        r == update_next(phase, event, current_version),
{
    let faulted = UpdateStep::Abort { faulted: true, record_version: None };
    match phase {
        UpdatePhase::Staging => if event == UpdateEvent::Succeeded {
            UpdateStep::Next(UpdatePhase::Publishing)
        } else {
            UpdateStep::Next(UpdatePhase::Restoring { adopt_version: None })
        },
        UpdatePhase::Publishing => match event {
            UpdateEvent::Accepted { version } => UpdateStep::Next(UpdatePhase::Confirming { version }),
            UpdateEvent::Refused { observed } => {
                let recovery = recovery_after_rejection(observed, current_version);
                if recovery == RejectionRecovery::RestoreListeners {
                    UpdateStep::Next(UpdatePhase::Restoring { adopt_version: None })
                } else {
                    faulted
                }
            },
            _ => faulted,
        },
        UpdatePhase::Confirming { version } => if event == UpdateEvent::Succeeded {
            UpdateStep::Next(UpdatePhase::Persisting { version })
        } else {
            faulted
        },
        UpdatePhase::Persisting { version } => if event == UpdateEvent::Succeeded {
            UpdateStep::Next(UpdatePhase::Retiring { version })
        } else {
            UpdateStep::Next(UpdatePhase::RollingBack { version })
        },
        UpdatePhase::RollingBack { .. } => match event {
            UpdateEvent::Accepted { version } => UpdateStep::Next(UpdatePhase::ConfirmingRollback { version }),
            _ => faulted,
        },
        UpdatePhase::ConfirmingRollback { version } => if event == UpdateEvent::Succeeded {
            UpdateStep::Next(UpdatePhase::Restoring { adopt_version: Some(version) })
        } else {
            faulted
        },
        UpdatePhase::Restoring { adopt_version } => if event == UpdateEvent::Succeeded {
            UpdateStep::Abort { faulted: false, record_version: adopt_version }
        } else {
            faulted
        },
        UpdatePhase::Retiring { version } => if event == UpdateEvent::Succeeded {
            UpdateStep::Done { version }
        } else {
            faulted
        },
    }
}


/// Every step of a rule update moves closer to its end: an update takes at
/// most eight steps.
pub proof fn lemma_update_terminates(phase: UpdatePhase, event: UpdateEvent, current_version: u64)
    ensures
        update_next(phase, event, current_version) matches UpdateStep::Next(q) ==> update_rank(q) < update_rank(
            phase,
        ),
{
}

/// A failed update leaves the helper usable only after the previous
/// listeners were restored; every other failure marks it failed.
pub proof fn lemma_clean_failure_restores(phase: UpdatePhase, event: UpdateEvent, current_version: u64)
    ensures
        update_next(phase, event, current_version) matches UpdateStep::Abort { faulted, .. } && !faulted
            ==> (phase is Restoring && event == UpdateEvent::Succeeded),
{
}

/// A refused publication is undone only when the helper still reports the
/// revision it had before; otherwise its state is unknown.
pub proof fn lemma_refusal_recovery(observed: Option<u64>, current_version: u64)
    ensures
        observed == Some(current_version) ==> update_next(
            UpdatePhase::Publishing,
            UpdateEvent::Refused { observed },
            current_version,
        ) == UpdateStep::Next(UpdatePhase::Restoring { adopt_version: None }),
        observed != Some(current_version) ==> update_next(
            UpdatePhase::Publishing,
            UpdateEvent::Refused { observed },
            current_version,
        ) == (UpdateStep::Abort { faulted: true, record_version: None }),
{
}

/// New rules come into force only through an accepted publication of their
/// version, its confirmation, and the rules being saved; in that order.
pub proof fn lemma_commit_path(phase: UpdatePhase, event: UpdateEvent, current_version: u64, v: u64)
    ensures
        update_next(phase, event, current_version) == (UpdateStep::Done { version: v }) ==> phase
            == (UpdatePhase::Retiring { version: v }) && event == UpdateEvent::Succeeded,
        update_next(phase, event, current_version) == UpdateStep::Next(UpdatePhase::Retiring { version: v })
            ==> phase == (UpdatePhase::Persisting { version: v }) && event == UpdateEvent::Succeeded,
        update_next(phase, event, current_version) == UpdateStep::Next(UpdatePhase::Persisting { version: v })
            ==> phase == (UpdatePhase::Confirming { version: v }) && event == UpdateEvent::Succeeded,
        update_next(phase, event, current_version) == UpdateStep::Next(UpdatePhase::Confirming { version: v })
            ==> phase == UpdatePhase::Publishing && event == (UpdateEvent::Accepted { version: v }),
{
}

/// How many ports a listener allocation tries before giving up.
pub const PORT_ATTEMPTS: u32 = 32;

/// What to do with a freshly allocated port.
#[derive(Clone, Copy, Debug, PartialEq, Eq, Structural)]
pub enum PortDecision {
    /// No managed listener uses it.
    Use,
    /// Another managed listener uses it: allocate again.
    Retry,
    /// Every attempt gave a port in use.
    GiveUp,
}

/// The decision after attempt number `attempt` (from 0) gave a port that
/// is `unused` or not.
pub fn port_decision(attempt: u32, unused: bool) -> (r: PortDecision)
    requires
        attempt < PORT_ATTEMPTS,
    ensures
        unused ==> r == PortDecision::Use,
        !unused && attempt + 1 < PORT_ATTEMPTS ==> r == PortDecision::Retry,
        !unused && attempt + 1 == PORT_ATTEMPTS ==> r == PortDecision::GiveUp,
{
    if unused {
        PortDecision::Use
    } else if attempt + 1 < PORT_ATTEMPTS {
        PortDecision::Retry
    } else {
        PortDecision::GiveUp
    }
}

/// Why the helper did not confirm published rules.
#[derive(Debug, PartialEq, Eq)]
pub enum ConfirmFailure {
    /// The helper exited while applying the rules.
    Exited { code: u32 },
    /// Its exit status could not be read.
    ProcessQueryFailed { message: String },
    /// The deadline passed before the rules showed up.
    DeadlinePassed,
}

/// First step of a confirmation poll: the helper must still run and the
/// deadline must not have passed; then the runtime reads the helper's
/// configuration and revision.
pub fn confirmation_precheck(poll: ProcessPoll, deadline_passed: bool) -> (r: Result<(), ConfirmFailure>)
    ensures
        match poll {
            ProcessPoll::Exited { code } => r == Err::<(), ConfirmFailure>(ConfirmFailure::Exited { code }),
            ProcessPoll::QueryFailed { message } => r == Err::<(), ConfirmFailure>(
                ConfirmFailure::ProcessQueryFailed { message },
            ),
            ProcessPoll::Running => if deadline_passed {
                r == Err::<(), ConfirmFailure>(ConfirmFailure::DeadlinePassed)
            } else {
                r is Ok
            },
        },
{
    match poll {
        ProcessPoll::Exited { code } => Err(ConfirmFailure::Exited { code }),
        ProcessPoll::QueryFailed { message } => Err(ConfirmFailure::ProcessQueryFailed { message }),
        ProcessPoll::Running => if deadline_passed {
            Err(ConfirmFailure::DeadlinePassed)
        } else {
            Ok(())
        },
    }
}

} // verus!

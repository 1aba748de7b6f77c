//! Scheduling rack and switch maintenance through the state controllers:
//! which request wins, when a rack is eligible, and how a failed credential
//! write is compensated.

use vstd::prelude::*;
use crate::text::{uuid_string, uuid_text};

verus! {

/// Errors of the component manager.
#[derive(Debug)]
pub enum ComponentManagerError {
    InvalidArgument(String),
    NotFound(String),
    Internal(String),
}

impl ComponentManagerError {
    /// The error's text: an invalid argument is reported as
    /// "invalid argument: " and its message; the others by their message.
    pub fn message(&self) -> (m: String)
        ensures
            self matches ComponentManagerError::InvalidArgument(a) ==> m@ == "invalid argument: "@ + a@,
            self matches ComponentManagerError::NotFound(a) ==> m@ == a@,
            self matches ComponentManagerError::Internal(a) ==> m@ == a@,
    {
        match self {
            ComponentManagerError::InvalidArgument(a) => String::from_str("invalid argument: ").concat(a.as_str()),
            ComponentManagerError::NotFound(a) => a.clone(),
            ComponentManagerError::Internal(a) => a.clone(),
        }
    }
}

/// Which rack states a maintenance caller is willing to schedule from.
/// Automatic maintenance uses `ReadyOnly`; the operator API may also recover
/// racks in `Error` with `ReadyOrError`.
#[derive(Clone, Copy, PartialEq, Eq, Structural, Debug)]
pub enum RackMaintenanceEligibility {
    ReadyOnly,
    ReadyOrError,
}

/// The class of a rack's controller state that eligibility depends on.
#[derive(Clone, Copy, PartialEq, Eq, Structural, Debug)]
pub enum RackStateKind {
    Ready,
    Error,
    Other,
}

/// What the rack already has pending, compared with the requested scope.
#[derive(Clone, Copy, PartialEq, Eq, Structural, Debug)]
pub enum PendingMaintenance {
    Nothing,
    SameScope,
    OtherScope,
}

/// The complete, non-error result of attempting to schedule rack maintenance.
#[derive(Clone, PartialEq, Eq, Debug)]
pub enum RackMaintenanceRequestOutcome<S> {
    /// This call recorded the requested scope.
    Scheduled,
    /// The exact same scope is already pending: an idempotent retry.
    AlreadyPending,
    /// A different maintenance request is pending and was left untouched.
    Busy,
    /// Nothing is pending, but the rack's current state is not eligible.
    Deferred { state: S },
}

pub open spec fn eligible(eligibility: RackMaintenanceEligibility, kind: RackStateKind) -> bool {
    match eligibility {
        RackMaintenanceEligibility::ReadyOnly => kind == RackStateKind::Ready,
        RackMaintenanceEligibility::ReadyOrError => kind == RackStateKind::Ready || kind == RackStateKind::Error,
    }
}

pub fn is_eligible(eligibility: RackMaintenanceEligibility, kind: RackStateKind) -> (b: bool)
    ensures
        b == eligible(eligibility, kind),
{
    match eligibility {
        RackMaintenanceEligibility::ReadyOnly => kind == RackStateKind::Ready,
        RackMaintenanceEligibility::ReadyOrError => kind == RackStateKind::Ready || kind == RackStateKind::Error,
    }
}

/// The outcome of a rack maintenance request on a rack that exists.
pub open spec fn rack_maintenance_outcome<S>(
    pending: PendingMaintenance,
    state: S,
    kind: RackStateKind,
    eligibility: RackMaintenanceEligibility,
) -> RackMaintenanceRequestOutcome<S> {
    match pending {
        PendingMaintenance::SameScope => RackMaintenanceRequestOutcome::AlreadyPending,
        PendingMaintenance::OtherScope => RackMaintenanceRequestOutcome::Busy,
        PendingMaintenance::Nothing => if eligible(eligibility, kind) {
            RackMaintenanceRequestOutcome::Scheduled
        } else {
            RackMaintenanceRequestOutcome::Deferred { state }
        },
    }
}

/// Decide a rack maintenance request. Existing work is looked at before the
/// rack's state, so a retry still sees `AlreadyPending` once the rack has
/// moved on; other pending work is never replaced.
pub fn decide_rack_maintenance<S>(
    pending: PendingMaintenance,
    state: S,
    kind: RackStateKind,
    eligibility: RackMaintenanceEligibility,
) -> (r: RackMaintenanceRequestOutcome<S>)
    ensures
        r == rack_maintenance_outcome(pending, state, kind, eligibility),
{
    match pending {
        PendingMaintenance::SameScope => RackMaintenanceRequestOutcome::AlreadyPending,
        PendingMaintenance::OtherScope => RackMaintenanceRequestOutcome::Busy,
        PendingMaintenance::Nothing => if is_eligible(eligibility, kind) {
            RackMaintenanceRequestOutcome::Scheduled
        } else {
            RackMaintenanceRequestOutcome::Deferred { state }
        },
    }
}

/// What the locked rack row holds, as the maintenance decision reads it.
pub struct RackSnapshot<S> {
    /// The rack's controller state.
    pub state: S,
    /// The class of that state.
    pub kind: RackStateKind,
    /// The pending maintenance request, compared with the requested scope.
    pub pending: PendingMaintenance,
}

/// What to do in the scheduling transaction, and what it answers.
pub struct RackMaintenanceDecision<S> {
    pub outcome: RackMaintenanceRequestOutcome<S>,
    /// Record the requested scope as the rack's pending maintenance.
    pub record_request: bool,
    /// Clear the rack's firmware-upgrade job together with the record.
    pub reset_firmware_upgrade_job: bool,
}

pub open spec fn rack_not_found_text(rack_id: Seq<char>) -> Seq<char> {
    "rack "@ + rack_id + " not found"@
}

/// Request rack maintenance through the rack state controller, given the
/// locked rack row (`None` when there is no such rack): an unknown rack is
/// refused; otherwise the scope is recorded exactly when the request is
/// scheduled, and the firmware-upgrade job is reset with it when the scope
/// runs a firmware upgrade.
pub fn request_rack_maintenance_via_state_controller<S>(
    rack_id: &str,
    rack: Option<RackSnapshot<S>>,
    eligibility: RackMaintenanceEligibility,
    scope_runs_firmware_upgrade: bool,
) -> (r: Result<RackMaintenanceDecision<S>, ComponentManagerError>)
    ensures
        rack is None ==> (r matches Err(ComponentManagerError::NotFound(m)) && m@ == rack_not_found_text(rack_id@)),
        rack matches Some(k) ==> (r matches Ok(d)
            && d.outcome == rack_maintenance_outcome(k.pending, k.state, k.kind, eligibility)
            && d.record_request == (d.outcome is Scheduled)
            && d.reset_firmware_upgrade_job == (d.outcome is Scheduled && scope_runs_firmware_upgrade)),
{
    match rack {
        None => {
            let m = String::from_str("rack ").concat(rack_id).concat(" not found");
            Err(ComponentManagerError::NotFound(m))
        },
        Some(k) => {
            let outcome = decide_rack_maintenance(k.pending, k.state, k.kind, eligibility);
            let scheduled = match outcome {
                RackMaintenanceRequestOutcome::Scheduled => true,
                _ => false,
            };
            Ok(RackMaintenanceDecision {
                outcome,
                record_request: scheduled,
                reset_firmware_upgrade_job: scheduled && scope_runs_firmware_upgrade,
            })
        },
    }
}

/// Law: scheduling never replaces pending work, an exact retry is
/// idempotent whatever state the rack has moved to, and whatever an automatic
/// caller may schedule, an operator may schedule too.
pub proof fn lemma_maintenance_never_overwrites<S>(
    pending: PendingMaintenance,
    state: S,
    kind: RackStateKind,
    eligibility: RackMaintenanceEligibility,
)
    ensures
        rack_maintenance_outcome(pending, state, kind, eligibility) is Scheduled ==> pending == PendingMaintenance::Nothing,
        pending == PendingMaintenance::SameScope ==> rack_maintenance_outcome(pending, state, kind, eligibility) is AlreadyPending,
        rack_maintenance_outcome(pending, state, kind, RackMaintenanceEligibility::ReadyOnly) is Scheduled
            ==> rack_maintenance_outcome(pending, state, kind, RackMaintenanceEligibility::ReadyOrError) is Scheduled,
{
}

/// Whether the caller's access token is to be stored: only when this call scheduled the request.
pub fn should_store_access_token<S>(outcome: &RackMaintenanceRequestOutcome<S>, has_token: bool) -> (b: bool)
    ensures
        b == (has_token && (*outcome is Scheduled)),
{
    has_token && match outcome {
        RackMaintenanceRequestOutcome::Scheduled => true,
        _ => false,
    }
}

/// How a maintenance request was compensated after its access token could not be stored.
#[derive(Clone, Copy, PartialEq, Eq, Structural, Debug)]
pub enum RackMaintenanceCredentialRecovery {
    /// The request was withdrawn.
    Cleared,
    /// Another request is pending now; it was left alone.
    RequestChanged,
    /// The rack already started the work; the rack controller cleans up.
    ExecutionStarted,
    RackNotFound,
}

/// Decide the compensation: withdraw the request only if the rack still has
/// exactly that request and has not started on it (it is `Ready` or in `Error`).
pub fn decide_credential_recovery(rack_found: bool, request_unchanged: bool, kind: RackStateKind) -> (r: RackMaintenanceCredentialRecovery)
    ensures
        !rack_found ==> r == RackMaintenanceCredentialRecovery::RackNotFound,
        rack_found && !request_unchanged ==> r == RackMaintenanceCredentialRecovery::RequestChanged,
        rack_found && request_unchanged && kind == RackStateKind::Other ==> r
            == RackMaintenanceCredentialRecovery::ExecutionStarted,
        rack_found && request_unchanged && kind != RackStateKind::Other ==> r
            == RackMaintenanceCredentialRecovery::Cleared,
{
    if !rack_found {
        RackMaintenanceCredentialRecovery::RackNotFound
    } else if !request_unchanged {
        RackMaintenanceCredentialRecovery::RequestChanged
    } else if kind == RackStateKind::Other {
        RackMaintenanceCredentialRecovery::ExecutionStarted
    } else {
        RackMaintenanceCredentialRecovery::Cleared
    }
}

/// The name a recovery is reported under.
pub open spec fn recovery_name(r: RackMaintenanceCredentialRecovery) -> Seq<char> {
    match r {
        RackMaintenanceCredentialRecovery::Cleared => "Cleared"@,
        RackMaintenanceCredentialRecovery::RequestChanged => "RequestChanged"@,
        RackMaintenanceCredentialRecovery::ExecutionStarted => "ExecutionStarted"@,
        RackMaintenanceCredentialRecovery::RackNotFound => "RackNotFound"@,
    }
}

pub fn recovery_name_text(r: RackMaintenanceCredentialRecovery) -> (s: &'static str)
    ensures
        s@ == recovery_name(r),
{
    match r {
        RackMaintenanceCredentialRecovery::Cleared => "Cleared",
        RackMaintenanceCredentialRecovery::RequestChanged => "RequestChanged",
        RackMaintenanceCredentialRecovery::ExecutionStarted => "ExecutionStarted",
        RackMaintenanceCredentialRecovery::RackNotFound => "RackNotFound",
    }
}

pub open spec fn credential_failure_text(error: Seq<char>, recovery: Result<RackMaintenanceCredentialRecovery, Seq<char>>) -> Seq<char> {
    "failed to store rack maintenance access token: "@ + error + match recovery {
        Ok(r) => "; recovery: "@ + recovery_name(r),
        Err(e) => "; failed to recover maintenance request: "@ + e,
    }
}

/// The internal error answered when the access token of a scheduled request
/// could not be stored, with how the request was compensated (or why that
/// failed too).
pub fn credential_failure_error(error: &str, recovery: Result<RackMaintenanceCredentialRecovery, String>) -> (e: ComponentManagerError)
    ensures
        e matches ComponentManagerError::Internal(m) && m@ == credential_failure_text(error@, match recovery {
            Ok(r) => Ok(r),
            Err(t) => Err(t@),
        }),
{
    let head = String::from_str("failed to store rack maintenance access token: ").concat(error);
    let m = match recovery {
        Ok(r) => head.concat("; recovery: ").concat(recovery_name_text(r)),
        Err(t) => head.concat("; failed to recover maintenance request: ").concat(t.as_str()),
    };
    ComponentManagerError::Internal(m)
}

/// What a rack maintenance request does next, once its scheduling
/// transaction has run.
pub enum RackMaintenanceStep<S> {
    /// Store the caller's access token for the rack; `outcome` is what the
    /// request answers if that works.
    StoreToken { outcome: RackMaintenanceRequestOutcome<S> },
    /// Storing the token failed with `write_error`: run the compensating
    /// transaction.
    Recover { write_error: String },
    /// Answer the caller.
    Answer(Result<RackMaintenanceRequestOutcome<S>, ComponentManagerError>),
}

/// After the scheduling transaction: store the caller's token when this call
/// scheduled the request and a token was given, else answer the outcome.
pub fn after_scheduling<S>(outcome: RackMaintenanceRequestOutcome<S>, has_token: bool) -> (r: RackMaintenanceStep<S>)
    ensures
        outcome is Scheduled && has_token ==> r == (RackMaintenanceStep::StoreToken { outcome }),
        !(outcome is Scheduled && has_token) ==> r == RackMaintenanceStep::Answer(
            Ok::<RackMaintenanceRequestOutcome<S>, ComponentManagerError>(outcome),
        ),
{
    if should_store_access_token(&outcome, has_token) {
        RackMaintenanceStep::StoreToken { outcome }
    } else {
        RackMaintenanceStep::Answer(Ok(outcome))
    }
}

/// After trying to store the token: answer the outcome when it was stored,
/// else compensate, carrying the write error along.
pub fn after_token_write<S>(outcome: RackMaintenanceRequestOutcome<S>, write: Result<(), String>) -> (r: RackMaintenanceStep<S>)
    ensures
        write is Ok ==> r == RackMaintenanceStep::Answer(
            Ok::<RackMaintenanceRequestOutcome<S>, ComponentManagerError>(outcome),
        ),
        write matches Err(e) ==> (r matches RackMaintenanceStep::Recover { write_error } && write_error@ == e@),
{
    match write {
        Ok(()) => RackMaintenanceStep::Answer(Ok(outcome)),
        Err(e) => RackMaintenanceStep::Recover { write_error: e },
    }
}

/// How a failed token write is compensated, given what the rack row holds
/// when the compensating transaction reads it: `None` when the rack is gone,
/// else whether it still has exactly the scheduled request, and its state.
pub open spec fn credential_recovery(rack: Option<(bool, RackStateKind)>) -> RackMaintenanceCredentialRecovery {
    match rack {
        None => RackMaintenanceCredentialRecovery::RackNotFound,
        Some(k) => if !k.0 {
            RackMaintenanceCredentialRecovery::RequestChanged
        } else if k.1 == RackStateKind::Other {
            RackMaintenanceCredentialRecovery::ExecutionStarted
        } else {
            RackMaintenanceCredentialRecovery::Cleared
        },
    }
}

/// The compensating transaction's decision: how the request is compensated,
/// and whether the rack's pending request is withdrawn.
pub struct CredentialRecoveryDecision {
    pub recovery: RackMaintenanceCredentialRecovery,
    pub clear_request: bool,
}

/// Decide the compensating transaction: the request is withdrawn exactly
/// when it is `Cleared`.
pub fn recover_after_credential_failure(rack: Option<(bool, RackStateKind)>) -> (r: CredentialRecoveryDecision)
    ensures
        r.recovery == credential_recovery(rack),
        r.clear_request == (r.recovery == RackMaintenanceCredentialRecovery::Cleared),
{
    let recovery = match rack {
        None => decide_credential_recovery(false, false, RackStateKind::Other),
        Some((unchanged, kind)) => decide_credential_recovery(true, unchanged, kind),
    };
    let clear_request = match recovery {
        RackMaintenanceCredentialRecovery::Cleared => true,
        _ => false,
    };
    CredentialRecoveryDecision { recovery, clear_request }
}

/// After the compensating transaction (`Err` with its error text when it
/// failed): answer the internal error that tells how the request was
/// compensated.
pub fn after_recovery<S>(write_error: &str, recovery: Result<RackMaintenanceCredentialRecovery, String>) -> (r: RackMaintenanceStep<S>)
    ensures
        r matches RackMaintenanceStep::Answer(Err(ComponentManagerError::Internal(m))) && m@ == credential_failure_text(
            write_error@,
            match recovery {
                Ok(x) => Ok(x),
                Err(t) => Err(t@),
            },
        ),
{
    RackMaintenanceStep::Answer(Err(credential_failure_error(write_error, recovery)))
}

/// Law: when a request scheduled on an eligible rack cannot store its access
/// token, and the compensating transaction finds the rack unchanged, the
/// request is withdrawn and the caller gets the internal error naming the
/// write error and the recovery `Cleared`.
pub proof fn lemma_failed_token_write_withdraws_request<S>(
    state: S,
    kind: RackStateKind,
    eligibility: RackMaintenanceEligibility,
    write_error: Seq<char>,
)
    requires
        eligible(eligibility, kind),
    ensures
        rack_maintenance_outcome(PendingMaintenance::Nothing, state, kind, eligibility) is Scheduled,
        credential_recovery(Some((true, kind))) == RackMaintenanceCredentialRecovery::Cleared,
        credential_failure_text(write_error, Ok(RackMaintenanceCredentialRecovery::Cleared))
            == "failed to store rack maintenance access token: "@ + write_error + "; recovery: Cleared"@,
{
    assert(kind != RackStateKind::Other);
    reveal_strlit("; recovery: ");
    reveal_strlit("Cleared");
    reveal_strlit("; recovery: Cleared");
    let head = "failed to store rack maintenance access token: "@ + write_error;
    assert(head + ("; recovery: "@ + "Cleared"@) =~= head + "; recovery: Cleared"@);
}

/// The result of requesting maintenance for one switch.
#[derive(Debug)]
pub struct SwitchMaintenanceRequestResult {
    pub switch_id: u128,
    pub error: Option<String>,
}

/// What the database holds of a switch.
#[derive(Clone, Copy, PartialEq, Eq, Structural, Debug)]
pub enum SwitchRecord {
    Missing,
    MarkedForDeletion,
    Present,
}

pub open spec fn switch_result_text(id: u128, rec: SwitchRecord) -> Option<Seq<char>> {
    match rec {
        SwitchRecord::Missing => Some("switch "@ + uuid_text(id) + " not found"@),
        SwitchRecord::MarkedForDeletion => Some("switch "@ + uuid_text(id) + " is marked for deletion"@),
        SwitchRecord::Present => None,
    }
}

/// Per switch: an error for a switch that is missing or marked for deletion;
/// the others get their maintenance requested.
pub fn switch_maintenance_results(switch_ids: &Vec<u128>, records: &Vec<SwitchRecord>) -> (r: Vec<SwitchMaintenanceRequestResult>)
    requires
        switch_ids@.len() == records@.len(),
    ensures
        r@.len() == switch_ids@.len(),
        forall|i: int| 0 <= i < r@.len() ==> (#[trigger] r@[i]).switch_id == switch_ids@[i] && match r@[i].error {
            Some(e) => switch_result_text(switch_ids@[i], records@[i]) == Some(e@),
            None => switch_result_text(switch_ids@[i], records@[i]) is None,
        },
{
    let mut r: Vec<SwitchMaintenanceRequestResult> = Vec::new();
    let mut i: usize = 0;
    while i < switch_ids.len()
        invariant
            i <= switch_ids@.len(),
            switch_ids@.len() == records@.len(),
            r@.len() == i,
            forall|k: int| 0 <= k < i ==> (#[trigger] r@[k]).switch_id == switch_ids@[k] && match r@[k].error {
                Some(e) => switch_result_text(switch_ids@[k], records@[k]) == Some(e@),
                None => switch_result_text(switch_ids@[k], records@[k]) is None,
            },
        decreases switch_ids@.len() - i,
    {
        let id = switch_ids[i];
        let error = match records[i] {
            SwitchRecord::Missing => Some(String::from_str("switch ").concat(uuid_string(id).as_str()).concat(" not found")),
            SwitchRecord::MarkedForDeletion => Some(String::from_str("switch ").concat(uuid_string(id).as_str()).concat(" is marked for deletion")),
            SwitchRecord::Present => None,
        };
        r.push(SwitchMaintenanceRequestResult { switch_id: id, error });
        i = i + 1;
    }
    r
}

/// The text of the error when switch maintenance is asked of a manager that
/// does not route switches through the state controller.
pub open spec fn switch_state_controller_disabled_text() -> Seq<char> {
    "nv_switch_use_state_controller is disabled; switch maintenance through the state controller is unavailable"@
}

/// The configured backends of each component type, and whether each type is
/// driven through its state controller.
#[derive(Debug)]
pub struct ComponentManager<N, P, C> {
    pub nv_switch: N,
    pub power_shelf: P,
    pub compute_tray: C,
    pub nv_switch_use_state_controller: bool,
    pub power_shelf_use_state_controller: bool,
    pub compute_tray_use_state_controller: bool,
}

impl<N, P, C> ComponentManager<N, P, C> {
    pub fn new(
        nv_switch: N,
        power_shelf: P,
        compute_tray: C,
        nv_switch_use_state_controller: bool,
        power_shelf_use_state_controller: bool,
        compute_tray_use_state_controller: bool,
    ) -> (m: Self)
        ensures
            m.nv_switch == nv_switch,
            m.power_shelf == power_shelf,
            m.compute_tray == compute_tray,
            m.nv_switch_use_state_controller == nv_switch_use_state_controller,
            m.power_shelf_use_state_controller == power_shelf_use_state_controller,
            m.compute_tray_use_state_controller == compute_tray_use_state_controller,
    {
        ComponentManager {
            nv_switch,
            power_shelf,
            compute_tray,
            nv_switch_use_state_controller,
            power_shelf_use_state_controller,
            compute_tray_use_state_controller,
        }
    }

    /// Request maintenance for switches through the state controller, given
    /// what the database holds of each: refused when switches are not routed
    /// through the state controller.
    pub fn request_switch_maintenance_via_state_controller(
        &self,
        switch_ids: &Vec<u128>,
        records: &Vec<SwitchRecord>,
    ) -> (r: Result<Vec<SwitchMaintenanceRequestResult>, ComponentManagerError>)
        requires
            switch_ids@.len() == records@.len(),
        ensures
            !self.nv_switch_use_state_controller ==> (r matches Err(ComponentManagerError::InvalidArgument(m))
                && m@ == switch_state_controller_disabled_text()),
            self.nv_switch_use_state_controller ==> (r matches Ok(v) && v@.len() == switch_ids@.len()
                && forall|i: int| 0 <= i < v@.len() ==> (#[trigger] v@[i]).switch_id == switch_ids@[i] && match v@[i].error {
                Some(e) => switch_result_text(switch_ids@[i], records@[i]) == Some(e@),
                None => switch_result_text(switch_ids@[i], records@[i]) is None,
            }),
    {
        if !self.nv_switch_use_state_controller {
            return Err(ComponentManagerError::InvalidArgument(String::from_str("nv_switch_use_state_controller is disabled; switch maintenance through the state controller is unavailable")));
        }
        Ok(switch_maintenance_results(switch_ids, records))
    }
}

} // verus!

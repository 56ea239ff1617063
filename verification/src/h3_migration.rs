//! The decisions of QUIC connection migration: which requests start a
//! migration, why an attempt stops, and what a caller is told.
//!
//! The migration actor performs the socket, QUIC and timer work; each of its
//! decisions is a function here from what it observed to what it does next.

use vstd::prelude::*;

use tokio::sync::{mpsc, oneshot};

use crate::error::TransportError;
use crate::net::SocketAddress;

verus! {

/// Why a migration did not happen. Stable and free of peer data.
#[derive(Debug, Clone, Copy, PartialEq, Eq, Structural)]
pub enum MigrationReasonCode {
    Unsupported,
    FamilyUnavailable,
    PeerCidUnavailable,
    LocalCidUnavailable,
    SocketProtectFailed,
    GenerationChangedDuringSetup,
    PathProbeRejected,
    PathValidationTimeout,
    PromotionFailed,
    Superseded,
    ConnectionClosed,
}

/// What a caller of a migration request is told.
#[derive(Debug, Clone, Copy, PartialEq, Eq, Structural)]
pub enum H3MigrationResult {
    Promoted { network_generation: u64 },
    StaleRequest,
    Failed(MigrationReasonCode),
}

/// Whether spare connection IDs exist for a new path.
#[derive(Debug, Clone, Copy, PartialEq, Eq, Structural)]
pub enum CidAvailability {
    Ready,
    PeerUnavailable,
    LocalUnavailable,
}

/// Why migration cannot be offered: the platform cannot migrate, or a side
/// lacks a spare connection ID.
pub fn migration_availability_reason(availability: CidAvailability, platform_supported: bool) -> (reason:
    Option<MigrationReasonCode>)
    ensures
        !platform_supported ==> reason == Some(MigrationReasonCode::Unsupported),
        platform_supported ==> reason == match availability {
            CidAvailability::Ready => None,
            CidAvailability::PeerUnavailable => Some(MigrationReasonCode::PeerCidUnavailable),
            CidAvailability::LocalUnavailable => Some(MigrationReasonCode::LocalCidUnavailable),
        },
{
    if !platform_supported {
        return Some(MigrationReasonCode::Unsupported);
    }
    match availability {
        CidAvailability::Ready => None,
        CidAvailability::PeerUnavailable => Some(MigrationReasonCode::PeerCidUnavailable),
        CidAvailability::LocalUnavailable => Some(MigrationReasonCode::LocalCidUnavailable),
    }
}

/// The reason to stop when spare connection IDs were provisioned with the
/// given outcome; `None` stands for a provisioning error.
pub fn provisioning_reason(availability: Option<CidAvailability>) -> (reason: Option<MigrationReasonCode>)
    ensures
        reason == match availability {
            Some(CidAvailability::Ready) => None,
            Some(CidAvailability::PeerUnavailable) => Some(MigrationReasonCode::PeerCidUnavailable),
            _ => Some(MigrationReasonCode::LocalCidUnavailable),
        },
{
    match availability {
        Some(CidAvailability::Ready) => None,
        Some(CidAvailability::PeerUnavailable) => Some(MigrationReasonCode::PeerCidUnavailable),
        _ => Some(MigrationReasonCode::LocalCidUnavailable),
    }
}

/// Spare source connection IDs kept ready beyond the one in use.
pub const SPARE_CONNECTION_ID_TARGET: usize = 3;

/// Fresh source connection IDs one maintenance pass may try to issue.
pub const CID_GENERATION_ATTEMPT_LIMIT: usize = 6;

/// The next step of one connection-ID maintenance pass.
#[derive(Debug, Clone, Copy, PartialEq, Eq, Structural)]
pub enum CidMaintenanceStep {
    /// Issue one more fresh source connection ID.
    Issue,
    /// Enough IDs are active, or QUIC allows no more: classify the result.
    Classify,
    /// The pass used its attempts; local IDs are unavailable.
    GiveUp,
}

/// The step of a maintenance pass: issue IDs until the spare target is
/// active or QUIC allows no more, but give up after the attempt limit.
pub open spec fn spec_cid_maintenance_step(active_ids: usize, ids_left: usize, attempts: usize) -> CidMaintenanceStep {
    if active_ids < SPARE_CONNECTION_ID_TARGET + 1 && ids_left > 0 {
        if attempts >= CID_GENERATION_ATTEMPT_LIMIT {
            CidMaintenanceStep::GiveUp
        } else {
            CidMaintenanceStep::Issue
        }
    } else {
        CidMaintenanceStep::Classify
    }
}

/// The next step of a maintenance pass that has made `attempts` attempts,
/// with `active_ids` source IDs active and room for `ids_left` more.
pub fn cid_maintenance_step(active_ids: usize, ids_left: usize, attempts: usize) -> (step: CidMaintenanceStep)
    ensures
        step == spec_cid_maintenance_step(active_ids, ids_left, attempts),
{
    if active_ids < SPARE_CONNECTION_ID_TARGET + 1 && ids_left > 0 {
        if attempts >= CID_GENERATION_ATTEMPT_LIMIT {
            CidMaintenanceStep::GiveUp
        } else {
            CidMaintenanceStep::Issue
        }
    } else {
        CidMaintenanceStep::Classify
    }
}

/// The availability after a maintenance pass: the peer offers no spare
/// destination ID, the client holds no spare source ID, or both are ready.
pub fn cid_availability(available_peer_ids: usize, active_ids: usize) -> (availability: CidAvailability)
    ensures
        availability == if available_peer_ids == 0 {
            CidAvailability::PeerUnavailable
        } else if active_ids <= 1 {
            CidAvailability::LocalUnavailable
        } else {
            CidAvailability::Ready
        },
{
    if available_peer_ids == 0 {
        CidAvailability::PeerUnavailable
    } else if active_ids <= 1 {
        CidAvailability::LocalUnavailable
    } else {
        CidAvailability::Ready
    }
}

/// The outcome of a refused request for a fresh source ID: running out of
/// IDs means local IDs are unavailable; any other refusal is an error,
/// given as `None`.
pub fn cid_issue_refused(error: ProbeError) -> (availability: Option<CidAvailability>)
    ensures
        availability == match error {
            ProbeError::Other => None,
            _ => Some(CidAvailability::LocalUnavailable),
        },
{
    match error {
        ProbeError::Other => None,
        _ => Some(CidAvailability::LocalUnavailable),
    }
}

/// Law: a maintenance pass that goes by these steps issues at most
/// `CID_GENERATION_ATTEMPT_LIMIT` fresh IDs. After that many attempts the
/// step is never to issue another.
pub proof fn lemma_maintenance_is_bounded(active_ids: usize, ids_left: usize, attempts: usize)
    requires
        attempts >= CID_GENERATION_ATTEMPT_LIMIT,
    ensures
        spec_cid_maintenance_step(active_ids, ids_left, attempts) != CidMaintenanceStep::Issue,
{
}

/// How QUIC refused to probe a new path.
#[derive(Debug, Clone, Copy, PartialEq, Eq, Structural)]
pub enum ProbeError {
    OutOfIdentifiers,
    IdLimit,
    Other,
}

/// The reason a path probe failed: no spare identifier, the peer's if it
/// offers none, or a refused probe.
pub fn probe_failure_reason(error: ProbeError, available_peer_ids: usize) -> (reason: MigrationReasonCode)
    ensures
        reason == match error {
            ProbeError::OutOfIdentifiers => if available_peer_ids == 0 {
                MigrationReasonCode::PeerCidUnavailable
            } else {
                MigrationReasonCode::LocalCidUnavailable
            },
            ProbeError::IdLimit => MigrationReasonCode::LocalCidUnavailable,
            ProbeError::Other => MigrationReasonCode::PathProbeRejected,
        },
{
    match error {
        ProbeError::OutOfIdentifiers => if available_peer_ids == 0 {
            MigrationReasonCode::PeerCidUnavailable
        } else {
            MigrationReasonCode::LocalCidUnavailable
        },
        ProbeError::IdLimit => MigrationReasonCode::LocalCidUnavailable,
        ProbeError::Other => MigrationReasonCode::PathProbeRejected,
    }
}

/// Migration is offered only when it is switched on and the platform
/// reports network generations; generation zero is a valid report.
pub fn migration_enabled(enabled: bool, initial_generation: Option<u64>) -> (offered: bool)
    ensures
        offered == (enabled && initial_generation is Some),
{
    enabled && initial_generation.is_some()
}

/// The generation a handle starts from: the reported one, else zero.
pub fn starting_generation(initial_generation: Option<u64>) -> (generation: u64)
    ensures
        generation == match initial_generation {
            Some(generation) => generation,
            None => 0,
        },
{
    match initial_generation {
        Some(generation) => generation,
        None => 0,
    }
}

/// What the actor does with a migration request.
#[derive(Debug, Clone, Copy, PartialEq, Eq, Structural)]
pub enum CommandAdmission {
    /// The caller is gone; nothing is answered.
    Ignore,
    /// The request is for a generation already handled or already passed.
    Stale,
    /// The request supersedes any attempt in flight.
    Start,
}

/// Admits a request for `target` unless its caller left, it is no newer than
/// the highest generation handled, or the platform is already past it.
pub open spec fn spec_admit_command(reply_closed: bool, target: u64, highest: u64, current: Option<u64>) -> CommandAdmission {
    if reply_closed {
        CommandAdmission::Ignore
    } else if target <= highest || (current matches Some(now) && target < now) {
        CommandAdmission::Stale
    } else {
        CommandAdmission::Start
    }
}

pub fn admit_command(reply_closed: bool, target: u64, highest: u64, current: Option<u64>) -> (admission:
    CommandAdmission)
    ensures
        admission == spec_admit_command(reply_closed, target, highest, current),
{
    if reply_closed {
        return CommandAdmission::Ignore;
    }
    let passed = match current {
        Some(now) => target < now,
        None => false,
    };
    if target <= highest || passed {
        CommandAdmission::Stale
    } else {
        CommandAdmission::Start
    }
}

/// The highest generation handled after a request for `target`: a
/// request that starts an attempt raises it to `target`; any other leaves
/// it.
pub open spec fn spec_highest_after(reply_closed: bool, target: u64, highest: u64, current: Option<u64>) -> u64 {
    if spec_admit_command(reply_closed, target, highest, current) == CommandAdmission::Start {
        target
    } else {
        highest
    }
}

/// The highest generation handled after a request for `target` arrives.
pub fn highest_after_command(reply_closed: bool, target: u64, highest: u64, current: Option<u64>) -> (next: u64)
    ensures
        next == spec_highest_after(reply_closed, target, highest, current),
{
    match admit_command(reply_closed, target, highest, current) {
        CommandAdmission::Start => target,
        _ => highest,
    }
}

/// Law: the highest generation handled never decreases, and it rises
/// exactly when a request starts an attempt.
pub proof fn lemma_highest_never_decreases(reply_closed: bool, target: u64, highest: u64, current: Option<u64>)
    ensures
        spec_highest_after(reply_closed, target, highest, current) >= highest,
        spec_highest_after(reply_closed, target, highest, current) > highest <==> spec_admit_command(
            reply_closed,
            target,
            highest,
            current,
        ) == CommandAdmission::Start,
{
}

/// The reason an attempt in flight is no longer valid: its deadline passed,
/// its caller left, or the platform's generation moved off the target.
pub open spec fn spec_invalid_attempt_reason(
    deadline_passed: bool,
    reply_open: bool,
    current: Option<u64>,
    target: u64,
    preparing_socket: bool,
) -> Option<MigrationReasonCode> {
    if deadline_passed {
        Some(MigrationReasonCode::PathValidationTimeout)
    } else if !reply_open {
        Some(MigrationReasonCode::Superseded)
    } else if current != Some(target) {
        if preparing_socket {
            Some(MigrationReasonCode::GenerationChangedDuringSetup)
        } else if current matches Some(now) && now > target {
            Some(MigrationReasonCode::Superseded)
        } else {
            Some(MigrationReasonCode::GenerationChangedDuringSetup)
        }
    } else {
        None
    }
}

pub fn invalid_attempt_reason(
    deadline_passed: bool,
    reply_open: bool,
    current: Option<u64>,
    target: u64,
    preparing_socket: bool,
) -> (reason: Option<MigrationReasonCode>)
    ensures
        reason == spec_invalid_attempt_reason(
            deadline_passed,
            reply_open,
            current,
            target,
            preparing_socket,
        ),
{
    if deadline_passed {
        return Some(MigrationReasonCode::PathValidationTimeout);
    }
    if !reply_open {
        return Some(MigrationReasonCode::Superseded);
    }
    let on_target = match current {
        Some(now) => now == target,
        None => false,
    };
    if !on_target {
        let newer = match current {
            Some(now) => now > target,
            None => false,
        };
        return Some(
            if preparing_socket {
                MigrationReasonCode::GenerationChangedDuringSetup
            } else if newer {
                MigrationReasonCode::Superseded
            } else {
                MigrationReasonCode::GenerationChangedDuringSetup
            },
        );
    }
    None
}

/// The reason a freshly admitted attempt stops before any socket work:
/// migration switched off or generations unknown, the endpoint's family gone,
/// the connection not open, or an already invalid attempt.
pub fn start_reason(
    quic_migration: bool,
    current: Option<u64>,
    family_available: Option<bool>,
    connection_open: bool,
    invalid: Option<MigrationReasonCode>,
) -> (reason: Option<MigrationReasonCode>)
    ensures
        reason == if !quic_migration || current is None {
            Some(MigrationReasonCode::Unsupported)
        } else if family_available == Some(false) {
            Some(MigrationReasonCode::FamilyUnavailable)
        } else if !connection_open {
            Some(MigrationReasonCode::ConnectionClosed)
        } else {
            invalid
        },
{
    if !quic_migration || current.is_none() {
        Some(MigrationReasonCode::Unsupported)
    } else if matches!(family_available, Some(false)) {
        Some(MigrationReasonCode::FamilyUnavailable)
    } else if !connection_open {
        Some(MigrationReasonCode::ConnectionClosed)
    } else {
        invalid
    }
}

/// How preparing the candidate socket ended.
#[derive(Debug, Clone, Copy, PartialEq, Eq, Structural)]
pub enum PreparationOutcome {
    Ready,
    StaleGeneration,
    SocketFailed,
}

/// The reason to stop once the candidate socket's preparation ended: an
/// attempt already invalid, a generation race, or a socket failure.
pub fn preparation_reason(
    outcome: PreparationOutcome,
    invalid: Option<MigrationReasonCode>,
) -> (reason: Option<MigrationReasonCode>)
    ensures
        reason == if invalid is Some {
            invalid
        } else {
            match outcome {
                PreparationOutcome::Ready => None,
                PreparationOutcome::StaleGeneration => Some(
                    MigrationReasonCode::GenerationChangedDuringSetup,
                ),
                PreparationOutcome::SocketFailed => Some(MigrationReasonCode::SocketProtectFailed),
            }
        },
{
    if invalid.is_some() {
        return invalid;
    }
    match outcome {
        PreparationOutcome::Ready => None,
        PreparationOutcome::StaleGeneration => Some(MigrationReasonCode::GenerationChangedDuringSetup),
        PreparationOutcome::SocketFailed => Some(MigrationReasonCode::SocketProtectFailed),
    }
}

/// What a caller of `migrate` is told: `Unsupported` when migration is not
/// offered; otherwise the actor's reply, a closed connection when the
/// request could not be sent or no reply came, and a timeout when the
/// deadline passed first.
pub fn migration_reply(
    enabled: bool,
    sent: bool,
    timed_out: bool,
    reply: Option<H3MigrationResult>,
) -> (result: H3MigrationResult)
    ensures
        result == if !enabled {
            H3MigrationResult::Failed(MigrationReasonCode::Unsupported)
        } else if timed_out {
            H3MigrationResult::Failed(MigrationReasonCode::PathValidationTimeout)
        } else if !sent {
            H3MigrationResult::Failed(MigrationReasonCode::ConnectionClosed)
        } else {
            match reply {
                Some(answer) => answer,
                None => H3MigrationResult::Failed(MigrationReasonCode::ConnectionClosed),
            }
        },
{
    if !enabled {
        return H3MigrationResult::Failed(MigrationReasonCode::Unsupported);
    }
    if timed_out {
        return H3MigrationResult::Failed(MigrationReasonCode::PathValidationTimeout);
    }
    if !sent {
        return H3MigrationResult::Failed(MigrationReasonCode::ConnectionClosed);
    }
    match reply {
        Some(answer) => answer,
        None => H3MigrationResult::Failed(MigrationReasonCode::ConnectionClosed),
    }
}

/// Law: a request that is not newer than every generation handled never
/// starts a migration, so the highest generation handled only grows.
pub proof fn lemma_only_newer_requests_start(
    reply_closed: bool,
    target: u64,
    highest: u64,
    current: Option<u64>,
)
    requires
        target <= highest,
    ensures
        spec_admit_command(reply_closed, target, highest, current) != CommandAdmission::Start,
{
}

/// Where a migration attempt stands.
#[derive(Debug, Clone, Copy, PartialEq, Eq, Structural)]
pub enum MigrationPhase {
    Idle,
    PreparingSocket,
    Probing,
    Validated,
}

/// The state poll interval of a migration attempt, 20 ms.
pub const MIGRATION_STATE_POLL_INTERVAL_NANOS: u128 = 20_000_000;

/// How long the actor sleeps with nothing scheduled, one day.
pub const IDLE_WAKEUP_NANOS: u128 = 86_400_000_000_000;

/// An attempt in flight as the wake-up schedule sees it: its deadline, its
/// phase and when it may probe next, in nanoseconds of the actor's clock.
#[derive(Debug, Clone, Copy, PartialEq, Eq, Structural)]
pub struct AttemptSchedule {
    pub deadline: u128,
    pub phase: MigrationPhase,
    pub next_probe_at: u128,
}

pub open spec fn min_u128(a: u128, b: u128) -> u128 {
    if a <= b { a } else { b }
}

pub open spec fn max_u128(a: u128, b: u128) -> u128 {
    if a >= b { a } else { b }
}

/// When the actor must next wake: the attempt's next poll, capped by its
/// deadline and, while probing or validated, by its next probe; the end of
/// the retiring path's grace; a day from now when nothing is scheduled.
pub open spec fn spec_next_wakeup(now: u128, attempt: Option<AttemptSchedule>, retiring_deadline: Option<u128>) -> u128 {
    let migration = match attempt {
        Some(schedule) => {
            let poll = min_u128((now + MIGRATION_STATE_POLL_INTERVAL_NANOS) as u128, schedule.deadline);
            Some(
                if schedule.phase == MigrationPhase::Probing || schedule.phase
                    == MigrationPhase::Validated {
                    min_u128(poll, max_u128(schedule.next_probe_at, now))
                } else {
                    poll
                },
            )
        },
        None => None,
    };
    match (migration, retiring_deadline) {
        (Some(wakeup), Some(retiring)) => min_u128(wakeup, retiring),
        (Some(wakeup), None) => wakeup,
        (None, Some(retiring)) => retiring,
        (None, None) => (now + IDLE_WAKEUP_NANOS) as u128,
    }
}

pub fn next_wakeup(now: u128, attempt: Option<AttemptSchedule>, retiring_deadline: Option<u128>) -> (wakeup: u128)
    requires
        now + IDLE_WAKEUP_NANOS <= u128::MAX,
    ensures
        wakeup == spec_next_wakeup(now, attempt, retiring_deadline),
{
    let migration = match attempt {
        Some(schedule) => {
            let next_poll = now + MIGRATION_STATE_POLL_INTERVAL_NANOS;
            let poll = if next_poll <= schedule.deadline {
                next_poll
            } else {
                schedule.deadline
            };
            if schedule.phase == MigrationPhase::Probing || schedule.phase == MigrationPhase::Validated {
                let probe = if schedule.next_probe_at >= now {
                    schedule.next_probe_at
                } else {
                    now
                };
                Some(
                    if poll <= probe {
                        poll
                    } else {
                        probe
                    },
                )
            } else {
                Some(poll)
            }
        },
        None => None,
    };
    match (migration, retiring_deadline) {
        (Some(wakeup), Some(retiring)) => if wakeup <= retiring {
            wakeup
        } else {
            retiring
        },
        (Some(wakeup), None) => wakeup,
        (None, Some(retiring)) => retiring,
        (None, None) => now + IDLE_WAKEUP_NANOS,
    }
}

/// Law: the actor never sleeps past an attempt's deadline or the retiring
/// path's grace.
pub proof fn lemma_wakeup_respects_deadlines(now: u128, attempt: Option<AttemptSchedule>, retiring_deadline: Option<u128>)
    ensures
        attempt matches Some(schedule) ==> spec_next_wakeup(now, attempt, retiring_deadline) <= schedule.deadline,
        retiring_deadline matches Some(retiring) ==> spec_next_wakeup(now, attempt, retiring_deadline) <= retiring,
{
}

/// The attempt in flight: the generation it migrates to and its phase.
#[derive(Debug, Clone, Copy, PartialEq, Eq, Structural)]
pub struct AttemptState {
    pub target: u64,
    pub phase: MigrationPhase,
}

/// What the migration actor tracks across events: at most one attempt in
/// flight, the highest generation handled, and whether a retired path is
/// still in its grace period.
#[derive(Debug, Clone, Copy, PartialEq, Eq, Structural)]
pub struct MigrationState {
    pub pending: Option<AttemptState>,
    pub highest: u64,
    pub retiring: bool,
}

/// What happens to the actor.
#[derive(Debug, Clone, Copy, PartialEq, Eq, Structural)]
pub enum MigrationEvent {
    /// A request to migrate to `target`, with whether its caller already
    /// left and the platform's current generation.
    Request { target: u64, reply_closed: bool, current: Option<u64> },
    /// The candidate socket of the attempt was prepared and inserted.
    Prepared,
    /// The candidate path passed validation.
    Validated,
    /// The candidate path became the active one, in `network_generation`.
    Promoted { network_generation: u64 },
    /// The attempt in flight was given up.
    Aborted(MigrationReasonCode),
    /// The retired path's grace period ended or it closed.
    RetiringDone,
}

/// The state after an event, the final answer of an attempt that ended,
/// and the immediate answer to a request that does not start an attempt.
#[derive(Debug, Clone, Copy, PartialEq, Eq, Structural)]
pub struct MigrationStep {
    pub state: MigrationState,
    pub ended: Option<H3MigrationResult>,
    pub answered: Option<H3MigrationResult>,
}

/// The actor's invariant: an attempt in flight migrates to the highest
/// generation handled and is in one of its active phases.
pub open spec fn migration_state_valid(state: MigrationState) -> bool {
    state.pending matches Some(attempt) ==> attempt.target == state.highest && attempt.phase
        != MigrationPhase::Idle
}

/// How far an attempt has come.
pub open spec fn phase_rank(phase: MigrationPhase) -> int {
    match phase {
        MigrationPhase::Idle => 0,
        MigrationPhase::PreparingSocket => 1,
        MigrationPhase::Probing => 2,
        MigrationPhase::Validated => 3,
    }
}

/// One event of the migration actor. A request that is admitted ends the
/// attempt in flight as superseded, forgets the retiring path and starts
/// preparing a socket for the new generation; a stale request is answered
/// at once; a request whose caller left changes nothing. A prepared socket
/// moves a preparing attempt to probing, a validated path moves a probing
/// attempt to validated, and a promotion ends a validated attempt with the
/// new generation and starts the retired path's grace period. An abort ends
/// the attempt in flight with its reason. Any other event changes nothing.
pub open spec fn spec_migration_step(state: MigrationState, event: MigrationEvent) -> MigrationStep {
    let unchanged = MigrationStep { state, ended: None, answered: None };
    match event {
        MigrationEvent::Request { target, reply_closed, current } => match spec_admit_command(
            reply_closed,
            target,
            state.highest,
            current,
        ) {
            CommandAdmission::Ignore => unchanged,
            CommandAdmission::Stale => MigrationStep { answered: Some(H3MigrationResult::StaleRequest), ..unchanged },
            CommandAdmission::Start => MigrationStep {
                state: MigrationState {
                    pending: Some(AttemptState { target, phase: MigrationPhase::PreparingSocket }),
                    highest: target,
                    retiring: false,
                },
                ended: if state.pending is Some {
                    Some(H3MigrationResult::Failed(MigrationReasonCode::Superseded))
                } else {
                    None
                },
                answered: None,
            },
        },
        MigrationEvent::Prepared => match state.pending {
            Some(attempt) => if attempt.phase == MigrationPhase::PreparingSocket {
                MigrationStep {
                    state: MigrationState {
                        pending: Some(AttemptState { phase: MigrationPhase::Probing, ..attempt }),
                        ..state
                    },
                    ..unchanged
                }
            } else {
                unchanged
            },
            None => unchanged,
        },
        MigrationEvent::Validated => match state.pending {
            Some(attempt) => if attempt.phase == MigrationPhase::Probing {
                MigrationStep {
                    state: MigrationState {
                        pending: Some(AttemptState { phase: MigrationPhase::Validated, ..attempt }),
                        ..state
                    },
                    ..unchanged
                }
            } else {
                unchanged
            },
            None => unchanged,
        },
        MigrationEvent::Promoted { network_generation } => match state.pending {
            Some(attempt) => if attempt.phase == MigrationPhase::Validated {
                MigrationStep {
                    state: MigrationState { pending: None, retiring: true, ..state },
                    ended: Some(H3MigrationResult::Promoted { network_generation }),
                    answered: None,
                }
            } else {
                unchanged
            },
            None => unchanged,
        },
        MigrationEvent::Aborted(reason) => match state.pending {
            Some(_) => MigrationStep {
                state: MigrationState { pending: None, ..state },
                ended: Some(H3MigrationResult::Failed(reason)),
                answered: None,
            },
            None => unchanged,
        },
        MigrationEvent::RetiringDone => MigrationStep {
            state: MigrationState { retiring: false, ..state },
            ..unchanged
        },
    }
}

/// Applies one event to the migration actor's state.
pub fn migration_step(state: MigrationState, event: MigrationEvent) -> (step: MigrationStep)
    ensures
        step == spec_migration_step(state, event),
{
    let unchanged = MigrationStep { state, ended: None, answered: None };
    match event {
        MigrationEvent::Request { target, reply_closed, current } => match admit_command(
            reply_closed,
            target,
            state.highest,
            current,
        ) {
            CommandAdmission::Ignore => unchanged,
            CommandAdmission::Stale => MigrationStep { answered: Some(H3MigrationResult::StaleRequest), ..unchanged },
            CommandAdmission::Start => MigrationStep {
                state: MigrationState {
                    pending: Some(AttemptState { target, phase: MigrationPhase::PreparingSocket }),
                    highest: target,
                    retiring: false,
                },
                ended: match state.pending {
                    Some(_) => Some(H3MigrationResult::Failed(MigrationReasonCode::Superseded)),
                    None => None,
                },
                answered: None,
            },
        },
        MigrationEvent::Prepared => match state.pending {
            Some(attempt) => if attempt.phase == MigrationPhase::PreparingSocket {
                MigrationStep {
                    state: MigrationState {
                        pending: Some(AttemptState { phase: MigrationPhase::Probing, ..attempt }),
                        ..state
                    },
                    ..unchanged
                }
            } else {
                unchanged
            },
            None => unchanged,
        },
        MigrationEvent::Validated => match state.pending {
            Some(attempt) => if attempt.phase == MigrationPhase::Probing {
                MigrationStep {
                    state: MigrationState {
                        pending: Some(AttemptState { phase: MigrationPhase::Validated, ..attempt }),
                        ..state
                    },
                    ..unchanged
                }
            } else {
                unchanged
            },
            None => unchanged,
        },
        MigrationEvent::Promoted { network_generation } => match state.pending {
            Some(attempt) => if attempt.phase == MigrationPhase::Validated {
                MigrationStep {
                    state: MigrationState { pending: None, retiring: true, ..state },
                    ended: Some(H3MigrationResult::Promoted { network_generation }),
                    answered: None,
                }
            } else {
                unchanged
            },
            None => unchanged,
        },
        MigrationEvent::Aborted(reason) => match state.pending {
            Some(_) => MigrationStep {
                state: MigrationState { pending: None, ..state },
                ended: Some(H3MigrationResult::Failed(reason)),
                answered: None,
            },
            None => unchanged,
        },
        MigrationEvent::RetiringDone => MigrationStep {
            state: MigrationState { retiring: false, ..state },
            ..unchanged
        },
    }
}

/// Law: every event keeps the actor's invariant; the highest generation
/// handled never decreases; an attempt that goes on only moves forward
/// through its phases and keeps its target; an attempt ends with exactly
/// one answer, and only a validated attempt is promoted; the immediate
/// answer is only ever a stale request's.
pub proof fn lemma_migration_step_laws(state: MigrationState, event: MigrationEvent)
    requires
        migration_state_valid(state),
    ensures
        migration_state_valid(spec_migration_step(state, event).state),
        spec_migration_step(state, event).state.highest >= state.highest,
        state.pending is Some && spec_migration_step(state, event).state.pending is Some
            && spec_migration_step(state, event).state.pending->0.target == state.pending->0.target
            ==> phase_rank(spec_migration_step(state, event).state.pending->0.phase) >= phase_rank(
            state.pending->0.phase,
        ),
        spec_migration_step(state, event).ended is Some <==> (state.pending is Some && (
        spec_migration_step(state, event).state.pending is None || spec_migration_step(
            state,
            event,
        ).state.pending->0.target != state.pending->0.target)),
        spec_migration_step(state, event).ended matches Some(H3MigrationResult::Promoted { .. })
            ==> state.pending matches Some(before) && before.phase == MigrationPhase::Validated,
        spec_migration_step(state, event).answered is Some ==> spec_migration_step(state, event).answered
            == Some(H3MigrationResult::StaleRequest) && spec_migration_step(state, event).state == state,
{
}

/// A tick leaves an attempt alone while its socket is being prepared,
/// before its next probe time, or while PMTU probing holds sends back.
pub fn tick_waits(phase: MigrationPhase, now: u128, next_probe_at: u128, pmtu_suppressed: bool) -> (waits: bool)
    ensures
        waits == (phase == MigrationPhase::PreparingSocket || now < next_probe_at || pmtu_suppressed),
{
    phase == MigrationPhase::PreparingSocket || now < next_probe_at || pmtu_suppressed
}

/// How draining the active path's output before a probe ended.
#[derive(Debug, Clone, Copy, PartialEq, Eq, Structural)]
pub enum DrainOutcome {
    Drained(usize),
    Deferred,
    MessageTooLarge,
    TimedOut,
    Failed,
}

/// What a tick does after draining the active path.
#[derive(Debug, Clone, Copy, PartialEq, Eq, Structural)]
pub enum DrainStep {
    /// Go on to probe or promote, with the candidate's packet budget.
    Proceed { candidate_budget: usize },
    /// Handle the oversized send as a PMTU event, then retry later.
    ShrinkPathMtu,
    /// Retry on a later tick.
    Defer,
    /// Stop the actor with the drain's error.
    Fail,
}

/// The step after a drain: a completed drain proceeds with what is left of
/// the packet budget, an oversized send is a PMTU event, a failure stops
/// the actor, and a deferred or late drain waits for a later tick.
pub fn drain_step(outcome: DrainOutcome, packet_budget: usize) -> (step: DrainStep)
    ensures
        step == match outcome {
            DrainOutcome::Drained(packets) => DrainStep::Proceed {
                candidate_budget: if packets >= packet_budget {
                    0
                } else {
                    (packet_budget - packets) as usize
                },
            },
            DrainOutcome::MessageTooLarge => DrainStep::ShrinkPathMtu,
            DrainOutcome::Failed => DrainStep::Fail,
            _ => DrainStep::Defer,
        },
{
    match outcome {
        DrainOutcome::Drained(packets) => DrainStep::Proceed {
            candidate_budget: packet_budget.saturating_sub(packets),
        },
        DrainOutcome::MessageTooLarge => DrainStep::ShrinkPathMtu,
        DrainOutcome::Failed => DrainStep::Fail,
        _ => DrainStep::Defer,
    }
}

/// The deadline of one probe cycle: the drain budget from now, but never
/// past the attempt's deadline.
pub fn cycle_deadline(now: u128, drain_budget: u128, deadline: u128) -> (cycle: u128)
    ensures
        cycle == min_u128(if now + drain_budget > u128::MAX { u128::MAX } else { (now + drain_budget) as u128 }, deadline),
{
    let budget_end = now.saturating_add(drain_budget);
    if budget_end <= deadline {
        budget_end
    } else {
        deadline
    }
}

/// What a path's receive failure does to a migration.
#[derive(Debug, Clone, Copy, PartialEq, Eq, Structural)]
pub enum ReceiveFailureAction {
    /// The candidate path failed: the attempt stops as a rejected probe.
    AbortCandidate,
    /// The retiring path failed: it is released at once.
    ClearRetiring,
    /// The failure is not on a migration path.
    NotMigration,
}

/// The action for a receive failure on `path_id`, given the identifiers of
/// the candidate and the retiring path, if any. The candidate is checked
/// first.
pub fn receive_failure_action(path_id: u64, candidate: Option<u64>, retiring: Option<u64>) -> (action:
    ReceiveFailureAction)
    ensures
        action == if candidate == Some(path_id) {
            ReceiveFailureAction::AbortCandidate
        } else if retiring == Some(path_id) {
            ReceiveFailureAction::ClearRetiring
        } else {
            ReceiveFailureAction::NotMigration
        },
{
    match candidate {
        Some(id) if id == path_id => return ReceiveFailureAction::AbortCandidate,
        _ => {},
    }
    match retiring {
        Some(id) if id == path_id => ReceiveFailureAction::ClearRetiring,
        _ => ReceiveFailureAction::NotMigration,
    }
}

/// A QUIC path as its statistics report it.
#[derive(Debug, Clone, Copy, PartialEq, Eq, Structural)]
pub struct PathReport {
    pub active: bool,
    pub local: SocketAddress,
    pub peer: SocketAddress,
}

/// A socket binding: the local and peer address one path socket uses.
#[derive(Debug, Clone, Copy, PartialEq, Eq, Structural)]
pub struct PathBinding {
    pub local: SocketAddress,
    pub peer: SocketAddress,
}

/// Some active QUIC path uses exactly the binding's addresses.
pub open spec fn binding_is_active(binding: PathBinding, paths: Seq<PathReport>) -> bool {
    exists|index: int|
        0 <= index < paths.len() && #[trigger] paths[index].active && paths[index].local == binding.local
            && paths[index].peer == binding.peer
}

/// Checks that QUIC's active path is the one the active socket is bound
/// to. Without an active socket, or when no active QUIC path uses its
/// addresses, the connection cannot go on.
pub fn verify_active_binding(binding: Option<PathBinding>, paths: &[PathReport]) -> (result: Result<(), TransportError>)
    ensures
        result is Ok <==> (binding is Some && binding_is_active(binding->0, paths@)),
        result is Err ==> (result matches Err(TransportError::Http3(_))),
{
    let bound = match binding {
        Some(bound) => bound,
        None => return Err(TransportError::Http3(String::from_str("H3 has no active socket binding"))),
    };
    let mut index: usize = 0;
    while index < paths.len()
        invariant
            binding == Some(bound),
            index <= paths@.len(),
            forall|earlier: int|
                0 <= earlier < index ==> !(#[trigger] paths@[earlier].active && paths@[earlier].local
                    == bound.local && paths@[earlier].peer == bound.peer),
        decreases paths@.len() - index,
    {
        let path = paths[index];
        if path.active && path.local == bound.local && path.peer == bound.peer {
            assert(paths@[index as int] == path);
            return Ok(());
        }
        index = index + 1;
    }
    Err(TransportError::Http3(String::from_str("QUIC active path diverged from its socket binding")))
}

#[verifier::external_type_specification]
#[verifier::external_body]
#[verifier::reject_recursive_types(T)]
pub struct ExMpscSender<T>(mpsc::Sender<T>);

#[verifier::external_type_specification]
#[verifier::external_body]
#[verifier::reject_recursive_types(T)]
pub struct ExOneshotSender<T>(oneshot::Sender<T>);

#[verifier::external_type_specification]
#[verifier::external_body]
pub struct ExTokioInstant(tokio::time::Instant);

/// The commands the migration control channel holds at once.
pub const H3_CONTROL_CAPACITY: usize = 1;

/// How long a caller waits for a migration's answer, in milliseconds.
pub const MIGRATION_TIMEOUT_MILLIS: u64 = 3_000;

/// A command to the HTTP/3 actor.
pub enum H3ControlCommand {
    /// Migrate the connection to the network of `target_generation`,
    /// answering on `reply` by `deadline`.
    Migrate {
        target_generation: u64,
        requested_at: tokio::time::Instant,
        deadline: tokio::time::Instant,
        reply: oneshot::Sender<H3MigrationResult>,
    },
}

/// The caller's side of connection migration: where commands go, the
/// endpoint, the generation the connection started on, and whether
/// migration is offered at all.
pub struct H3MigrationHandle {
    sender: mpsc::Sender<H3ControlCommand>,
    endpoint: SocketAddress,
    initial_generation: u64,
    enabled: bool,
}

impl H3MigrationHandle {
    pub closed spec fn spec_sender(&self) -> mpsc::Sender<H3ControlCommand> {
        self.sender
    }

    pub closed spec fn spec_endpoint(&self) -> SocketAddress {
        self.endpoint
    }

    pub closed spec fn spec_initial_generation(&self) -> u64 {
        self.initial_generation
    }

    pub closed spec fn spec_enabled(&self) -> bool {
        self.enabled
    }

    /// A handle for a connection to `endpoint`. Migration is offered only
    /// when switched on and the platform reports network generations; an
    /// unknown generation starts at zero.
    pub fn new(
        sender: mpsc::Sender<H3ControlCommand>,
        endpoint: SocketAddress,
        initial_generation: Option<u64>,
        enabled: bool,
    ) -> (handle: Self)
        ensures
            handle.spec_sender() == sender,
            handle.spec_endpoint() == endpoint,
            handle.spec_initial_generation() == match initial_generation {
                Some(generation) => generation,
                None => 0,
            },
            handle.spec_enabled() == (enabled && initial_generation is Some),
    {
        let start = starting_generation(initial_generation);
        let offered = migration_enabled(enabled, initial_generation);
        H3MigrationHandle { sender, endpoint, initial_generation: start, enabled: offered }
    }

    pub fn endpoint(&self) -> (endpoint: SocketAddress)
        ensures
            endpoint == self.spec_endpoint(),
    {
        self.endpoint
    }

    pub fn initial_generation(&self) -> (generation: u64)
        ensures
            generation == self.spec_initial_generation(),
    {
        self.initial_generation
    }

    pub fn enabled(&self) -> (enabled: bool)
        ensures
            enabled == self.spec_enabled(),
    {
        self.enabled
    }

    /// Where migration commands are sent.
    pub fn sender(&self) -> (sender: &mpsc::Sender<H3ControlCommand>)
        ensures
            *sender == self.spec_sender(),
    {
        &self.sender
    }
}

} // verus!

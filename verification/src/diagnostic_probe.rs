//! The decisions of the explicit network probes: which endpoints a probe
//! may try, how one probe's answer becomes the reported result, and how
//! serial attempts across families add up. The probes themselves are I/O.

use vstd::prelude::*;

use crate::direct_dns::DirectDnsError;
use crate::net::SocketAddress;

verus! {

/// The budget of one probe, 3.8 s, in nanoseconds.
pub const PROBE_IO_TIMEOUT_NANOS: u128 = 3_800_000_000;

/// Allowlisted probe results; never remote errors or identifying data.
#[derive(Debug, Clone, Copy, PartialEq, Eq, Structural)]
pub enum NetworkProbeResult {
    Passed { milliseconds: u64 },
    NotApplicable,
    Failed,
    TimedOut,
    Cancelled,
    NetworkChanged,
}

/// Which address families a connection may use, and in which order.
#[derive(Debug, Clone, Copy, PartialEq, Eq, Structural)]
pub enum IpPolicy {
    Auto,
    PreferIpv4,
    PreferIpv6,
    Ipv4Only,
    Ipv6Only,
}

/// The endpoints an H3 probe tries, in the family order of normal
/// connection selection; a forced family is never widened.
pub fn h3_probe_endpoints(policy: IpPolicy, v4: SocketAddress, v6: SocketAddress) -> (endpoints: Vec<
    SocketAddress,
>)
    ensures
        endpoints@ == match policy {
            IpPolicy::Ipv4Only => seq![v4],
            IpPolicy::Ipv6Only => seq![v6],
            IpPolicy::PreferIpv4 => seq![v4, v6],
            _ => seq![v6, v4],
        },
{
    let mut endpoints: Vec<SocketAddress> = Vec::new();
    match policy {
        IpPolicy::Ipv4Only => endpoints.push(v4),
        IpPolicy::Ipv6Only => endpoints.push(v6),
        IpPolicy::PreferIpv4 => {
            endpoints.push(v4);
            endpoints.push(v6);
        },
        _ => {
            endpoints.push(v6);
            endpoints.push(v4);
        },
    }
    endpoints
}

/// The probe candidates: of the first two endpoints, in order, those whose
/// family is not known to be unavailable.
pub open spec fn spec_probe_candidates(endpoints: Seq<SocketAddress>, unavailable: Seq<bool>) -> Seq<
    SocketAddress,
> {
    let first = if endpoints.len() > 0 && !unavailable[0] {
        seq![endpoints[0]]
    } else {
        Seq::empty()
    };
    let second = if endpoints.len() > 1 && !unavailable[1] {
        seq![endpoints[1]]
    } else {
        Seq::empty()
    };
    first + second
}

/// Keeps the first two endpoints unless their family is known to be
/// unavailable; `unavailable[i]` says so for `endpoints[i]`.
pub fn probe_candidates(endpoints: &[SocketAddress], unavailable: &[bool]) -> (candidates: Vec<
    SocketAddress,
>)
    requires
        unavailable@.len() == endpoints@.len(),
    ensures
        candidates@ == spec_probe_candidates(endpoints@, unavailable@),
        candidates@.len() <= 2,
{
    let mut candidates: Vec<SocketAddress> = Vec::new();
    if endpoints.len() > 0 && !unavailable[0] {
        candidates.push(endpoints[0]);
    }
    if endpoints.len() > 1 && !unavailable[1] {
        candidates.push(endpoints[1]);
    }
    assert(candidates@ =~= spec_probe_candidates(endpoints@, unavailable@));
    candidates
}

/// The result of an encrypted-DNS probe: a cancellation or a network change
/// during the probe wins, a pool that could not be torn down fails, and
/// otherwise the query's outcome is mapped to an allowlisted result.
pub open spec fn spec_dns_probe_result(
    cancelled: bool,
    generation_changed: bool,
    cleaned: bool,
    outcome: Result<(), DirectDnsError>,
    elapsed_milliseconds: u64,
) -> NetworkProbeResult {
    if cancelled {
        NetworkProbeResult::Cancelled
    } else if generation_changed {
        NetworkProbeResult::NetworkChanged
    } else if !cleaned {
        NetworkProbeResult::Failed
    } else {
        match outcome {
            Ok(()) => NetworkProbeResult::Passed { milliseconds: elapsed_milliseconds },
            Err(DirectDnsError::Timeout) => NetworkProbeResult::TimedOut,
            Err(DirectDnsError::Busy) => NetworkProbeResult::TimedOut,
            Err(DirectDnsError::Cancelled) => NetworkProbeResult::Cancelled,
            Err(DirectDnsError::NetworkChanged) => NetworkProbeResult::NetworkChanged,
            Err(_) => NetworkProbeResult::Failed,
        }
    }
}

/// Law: how an encrypted-DNS probe's answer is reported. A cancellation
/// wins over everything; a network change wins over every outcome of a
/// probe that was not cancelled; with neither, a pool that could not be torn
/// down fails; and once it was, a query that timed out or found every
/// connection busy is reported as timed out, a successful one as passed with
/// its elapsed time, whatever the time was.
pub proof fn lemma_dns_probe_reports(
    cancelled: bool,
    generation_changed: bool,
    cleaned: bool,
    outcome: Result<(), DirectDnsError>,
    elapsed_milliseconds: u64,
)
    ensures
        cancelled ==> spec_dns_probe_result(cancelled, generation_changed, cleaned, outcome, elapsed_milliseconds)
            == NetworkProbeResult::Cancelled,
        !cancelled && generation_changed ==> spec_dns_probe_result(
            cancelled,
            generation_changed,
            cleaned,
            outcome,
            elapsed_milliseconds,
        ) == NetworkProbeResult::NetworkChanged,
        !cancelled && !generation_changed && !cleaned ==> spec_dns_probe_result(
            cancelled,
            generation_changed,
            cleaned,
            outcome,
            elapsed_milliseconds,
        ) == NetworkProbeResult::Failed,
        !cancelled && !generation_changed && cleaned && (outcome == Err::<(), DirectDnsError>(
            DirectDnsError::Timeout,
        ) || outcome == Err::<(), DirectDnsError>(DirectDnsError::Busy)) ==> spec_dns_probe_result(
            cancelled,
            generation_changed,
            cleaned,
            outcome,
            elapsed_milliseconds,
        ) == NetworkProbeResult::TimedOut,
        !cancelled && !generation_changed && cleaned && outcome is Ok ==> spec_dns_probe_result(
            cancelled,
            generation_changed,
            cleaned,
            outcome,
            elapsed_milliseconds,
        ) == (NetworkProbeResult::Passed { milliseconds: elapsed_milliseconds }),
        outcome is Err ==> !(spec_dns_probe_result(
            cancelled,
            generation_changed,
            cleaned,
            outcome,
            elapsed_milliseconds,
        ) is Passed),
{
}

pub fn dns_probe_result(
    cancelled: bool,
    generation_changed: bool,
    cleaned: bool,
    outcome: Result<(), DirectDnsError>,
    elapsed_milliseconds: u64,
) -> (result: NetworkProbeResult)
    ensures
        result == spec_dns_probe_result(
            cancelled,
            generation_changed,
            cleaned,
            outcome,
            elapsed_milliseconds,
        ),
{
    if cancelled {
        return NetworkProbeResult::Cancelled;
    }
    if generation_changed {
        return NetworkProbeResult::NetworkChanged;
    }
    if !cleaned {
        return NetworkProbeResult::Failed;
    }
    match outcome {
        Ok(()) => NetworkProbeResult::Passed { milliseconds: elapsed_milliseconds },
        Err(DirectDnsError::Timeout) | Err(DirectDnsError::Busy) => NetworkProbeResult::TimedOut,
        Err(DirectDnsError::Cancelled) => NetworkProbeResult::Cancelled,
        Err(DirectDnsError::NetworkChanged) => NetworkProbeResult::NetworkChanged,
        Err(_) => NetworkProbeResult::Failed,
    }
}

/// What a round of the QUIC handshake probe decides before it sends: a
/// network generation other than the one the probe started in (an unknown
/// one counts as 0), or a socket lease of another generation, ends it as
/// `NetworkChanged`; otherwise a rejected endpoint pin, or a connection
/// that is closed or draining, ends it as `Failed`; otherwise it goes on.
pub open spec fn spec_handshake_round(
    started: u64,
    current: Option<u64>,
    lease: Option<u64>,
    pin_rejected: bool,
    closed: bool,
    draining: bool,
) -> Option<NetworkProbeResult> {
    let now = match current {
        Some(generation) => generation,
        None => 0,
    };
    if now != started || lease != Some(started) {
        Some(NetworkProbeResult::NetworkChanged)
    } else if pin_rejected || closed || draining {
        Some(NetworkProbeResult::Failed)
    } else {
        None
    }
}

/// The check at the start of each round of the QUIC handshake probe.
pub fn handshake_round(
    started: u64,
    current: Option<u64>,
    lease: Option<u64>,
    pin_rejected: bool,
    closed: bool,
    draining: bool,
) -> (ended: Option<NetworkProbeResult>)
    ensures
        ended == spec_handshake_round(started, current, lease, pin_rejected, closed, draining),
{
    let now = match current {
        Some(generation) => generation,
        None => 0,
    };
    let same_lease = match lease {
        Some(generation) => generation == started,
        None => false,
    };
    if now != started || !same_lease {
        Some(NetworkProbeResult::NetworkChanged)
    } else if pin_rejected || closed || draining {
        Some(NetworkProbeResult::Failed)
    } else {
        None
    }
}

/// Why the handshake probe's UDP socket could not be prepared: a stale
/// network generation is `NetworkChanged`, anything else `Failed`.
pub fn socket_prepare_failure(stale_generation: bool) -> (result: NetworkProbeResult)
    ensures
        result == if stale_generation {
            NetworkProbeResult::NetworkChanged
        } else {
            NetworkProbeResult::Failed
        },
{
    if stale_generation {
        NetworkProbeResult::NetworkChanged
    } else {
        NetworkProbeResult::Failed
    }
}

/// The result a handshake probe reports: cancellation wins, then the probe
/// budget running out; otherwise the handshake's own answer, whether it
/// ended in success or with a classified failure.
pub fn handshake_result(
    cancelled: bool,
    timed_out: bool,
    outcome: Result<NetworkProbeResult, NetworkProbeResult>,
) -> (result: NetworkProbeResult)
    ensures
        result == if cancelled {
            NetworkProbeResult::Cancelled
        } else if timed_out {
            NetworkProbeResult::TimedOut
        } else {
            match outcome {
                Ok(answer) => answer,
                Err(answer) => answer,
            }
        },
{
    if cancelled {
        return NetworkProbeResult::Cancelled;
    }
    if timed_out {
        return NetworkProbeResult::TimedOut;
    }
    match outcome {
        Ok(answer) => answer,
        Err(answer) => answer,
    }
}

/// The result when no probe candidate is left.
pub fn no_candidates_result(cancelled: bool) -> (result: NetworkProbeResult)
    ensures
        result == if cancelled {
            NetworkProbeResult::Cancelled
        } else {
            NetworkProbeResult::Failed
        },
{
    if cancelled {
        NetworkProbeResult::Cancelled
    } else {
        NetworkProbeResult::Failed
    }
}

/// The share of the remaining budget the next attempt gets: an equal part
/// for each attempt still to come.
pub fn attempt_budget(remaining_nanos: u128, attempts_left: usize) -> (budget: u128)
    requires
        attempts_left > 0,
    ensures
        budget == remaining_nanos / (attempts_left as u128),
        budget <= remaining_nanos,
{
    remaining_nanos / (attempts_left as u128)
}

/// A whole number of milliseconds as `u64`, held at `u64::MAX`.
pub fn saturating_milliseconds(milliseconds: u128) -> (clamped: u64)
    ensures
        clamped == if milliseconds > u64::MAX as u128 {
            u64::MAX
        } else {
            milliseconds as u64
        },
{
    if milliseconds > u64::MAX as u128 {
        u64::MAX
    } else {
        milliseconds as u64
    }
}

/// The result of serial probe attempts that answered `outcomes`, in order:
/// the first pass, cancellation, network change or non-applicability ends
/// the run; failures and timeouts go on to the next attempt, and after the
/// last one a run with any timeout timed out, otherwise it failed. A pass
/// reports the whole run's `elapsed_milliseconds`.
pub open spec fn spec_candidate_run(
    outcomes: Seq<NetworkProbeResult>,
    timed_out: bool,
    elapsed_milliseconds: u64,
) -> NetworkProbeResult
    decreases outcomes.len(),
{
    if outcomes.len() == 0 {
        if timed_out {
            NetworkProbeResult::TimedOut
        } else {
            NetworkProbeResult::Failed
        }
    } else {
        match outcomes[0] {
            NetworkProbeResult::Passed { .. } => NetworkProbeResult::Passed {
                milliseconds: elapsed_milliseconds,
            },
            NetworkProbeResult::Failed => spec_candidate_run(
                outcomes.drop_first(),
                timed_out,
                elapsed_milliseconds,
            ),
            NetworkProbeResult::TimedOut => spec_candidate_run(
                outcomes.drop_first(),
                true,
                elapsed_milliseconds,
            ),
            other => other,
        }
    }
}

/// Adds up the outcomes of serial probe attempts.
pub fn candidate_run_result(outcomes: &[NetworkProbeResult], elapsed_milliseconds: u64) -> (result:
    NetworkProbeResult)
    ensures
        result == spec_candidate_run(outcomes@, false, elapsed_milliseconds),
{
    let mut timed_out = false;
    let mut index: usize = 0;
    assert(outcomes@.skip(0) =~= outcomes@);
    while index < outcomes.len()
        invariant
            index <= outcomes@.len(),
            spec_candidate_run(outcomes@, false, elapsed_milliseconds) == spec_candidate_run(
                outcomes@.skip(index as int),
                timed_out,
                elapsed_milliseconds,
            ),
        decreases outcomes@.len() - index,
    {
        let ghost rest = outcomes@.skip(index as int);
        assert(rest[0] == outcomes@[index as int]);
        assert(rest.drop_first() =~= outcomes@.skip(index + 1));
        match outcomes[index] {
            NetworkProbeResult::Passed { .. } => {
                return NetworkProbeResult::Passed { milliseconds: elapsed_milliseconds };
            },
            NetworkProbeResult::Failed => {},
            NetworkProbeResult::TimedOut => {
                timed_out = true;
            },
            other => {
                return other;
            },
        }
        index = index + 1;
    }
    if timed_out {
        NetworkProbeResult::TimedOut
    } else {
        NetworkProbeResult::Failed
    }
}

/// Law: a run passes only when some attempt passed, and a run in which no
/// attempt passed, was cancelled, saw a network change or did not apply
/// reports a timeout exactly when some attempt timed out.
pub proof fn lemma_candidate_run(outcomes: Seq<NetworkProbeResult>, timed_out: bool, elapsed_milliseconds: u64)
    ensures
        spec_candidate_run(outcomes, timed_out, elapsed_milliseconds) is Passed ==> exists|i: int|
            0 <= i < outcomes.len() && #[trigger] outcomes[i] is Passed,
        (forall|i: int|
            0 <= i < outcomes.len() ==> (#[trigger] outcomes[i] is Failed || outcomes[i] is TimedOut))
            ==> spec_candidate_run(outcomes, timed_out, elapsed_milliseconds) == if timed_out || exists|i: int|
            0 <= i < outcomes.len() && #[trigger] outcomes[i] is TimedOut {
            NetworkProbeResult::TimedOut
        } else {
            NetworkProbeResult::Failed
        },
    decreases outcomes.len(),
{
    if outcomes.len() > 0 {
        let rest = outcomes.drop_first();
        let next_timed_out = timed_out || outcomes[0] is TimedOut;
        lemma_candidate_run(rest, next_timed_out, elapsed_milliseconds);
        if spec_candidate_run(rest, next_timed_out, elapsed_milliseconds) is Passed && !(outcomes[0] is Passed) {
            let i = choose|i: int| 0 <= i < rest.len() && #[trigger] rest[i] is Passed;
            assert(outcomes[i + 1] is Passed);
        }
        if forall|i: int| 0 <= i < outcomes.len() ==> (#[trigger] outcomes[i] is Failed || outcomes[i] is TimedOut) {
            assert forall|i: int| 0 <= i < rest.len() implies (#[trigger] rest[i] is Failed || rest[i] is TimedOut) by {
                assert(rest[i] == outcomes[i + 1]);
            }
            if exists|i: int| 0 <= i < rest.len() && #[trigger] rest[i] is TimedOut {
                let i = choose|i: int| 0 <= i < rest.len() && #[trigger] rest[i] is TimedOut;
                assert(outcomes[i + 1] is TimedOut);
            }
            if exists|i: int| 0 <= i < outcomes.len() && #[trigger] outcomes[i] is TimedOut {
                let i = choose|i: int| 0 <= i < outcomes.len() && #[trigger] outcomes[i] is TimedOut;
                if i > 0 {
                    assert(rest[i - 1] is TimedOut);
                }
            }
        }
    }
}

} // verus!

//! Policy of the encrypted direct DNS resolver: its fixed failure codes,
//! which failures may be retried, which bootstrap endpoints a query may
//! use, and the checks a DNS-over-HTTPS answer's headers must pass.

use vstd::prelude::*;

use crate::doh_media_type::{spec_valid_dns_media_type, valid_dns_media_type};
use crate::error::{status_code_as_u16, status_code_value};
use crate::net::{IpAddress, SocketAddress};

verus! {

/// The largest DNS message a resolver accepts.
pub const MAX_DNS_MESSAGE: usize = 65_535;

/// Fixed failure codes; they never carry a query, endpoint, name,
/// certificate, OS error or header received from the peer.
#[derive(Debug, Clone, Copy, PartialEq, Eq, Structural)]
pub enum DirectDnsError {
    Unsupported,
    InvalidConfiguration,
    InvalidQuery,
    BootstrapUnavailable,
    SocketProtectFailed,
    ConnectFailed,
    TlsFailed,
    AlpnMismatch,
    HttpRejected,
    InvalidContentType,
    ResponseTooLarge,
    InvalidResponse,
    QueryFailed,
    Timeout,
    NetworkChanged,
    Cancelled,
    Busy,
}

/// The reason a failed direct DNS query is reported under.
#[derive(Debug, Clone, Copy, PartialEq, Eq, Structural)]
pub enum DirectDnsReasonCode {
    Timeout,
    NetworkChanged,
    Unsupported,
    QueryFailed,
}

impl DirectDnsError {
    /// The quality reason: timeouts, network changes and unsupported modes
    /// keep their own reason, every other failure is a failed query.
    pub fn quality_reason(self) -> (reason: DirectDnsReasonCode)
        ensures
            reason == match self {
                DirectDnsError::Timeout => DirectDnsReasonCode::Timeout,
                DirectDnsError::NetworkChanged => DirectDnsReasonCode::NetworkChanged,
                DirectDnsError::Unsupported => DirectDnsReasonCode::Unsupported,
                _ => DirectDnsReasonCode::QueryFailed,
            },
    {
        match self {
            DirectDnsError::Timeout => DirectDnsReasonCode::Timeout,
            DirectDnsError::NetworkChanged => DirectDnsReasonCode::NetworkChanged,
            DirectDnsError::Unsupported => DirectDnsReasonCode::Unsupported,
            _ => DirectDnsReasonCode::QueryFailed,
        }
    }

    /// Failures of the chosen endpoint may be retried on another bootstrap
    /// endpoint; failures of the request, the configuration, the network
    /// generation or the caller's budget may not.
    pub fn permits_retry(self) -> (retry: bool)
        ensures
            retry == !(self is Unsupported || self is InvalidConfiguration || self is InvalidQuery
                || self is NetworkChanged || self is Cancelled || self is Timeout || self is Busy),
    {
        match self {
            DirectDnsError::Unsupported | DirectDnsError::InvalidConfiguration
            | DirectDnsError::InvalidQuery | DirectDnsError::NetworkChanged
            | DirectDnsError::Cancelled | DirectDnsError::Timeout | DirectDnsError::Busy => false,
            _ => true,
        }
    }

    /// The stable text of the code.
    pub fn as_str(self) -> (text: &'static str)
        ensures
            text@ == match self {
                DirectDnsError::Unsupported => "unsupported"@,
                DirectDnsError::InvalidConfiguration => "invalid_configuration"@,
                DirectDnsError::InvalidQuery => "invalid_query"@,
                DirectDnsError::BootstrapUnavailable => "bootstrap_unavailable"@,
                DirectDnsError::SocketProtectFailed => "socket_protect_failed"@,
                DirectDnsError::ConnectFailed => "connect_failed"@,
                DirectDnsError::TlsFailed => "tls_failed"@,
                DirectDnsError::AlpnMismatch => "alpn_mismatch"@,
                DirectDnsError::HttpRejected => "http_rejected"@,
                DirectDnsError::InvalidContentType => "invalid_content_type"@,
                DirectDnsError::ResponseTooLarge => "response_too_large"@,
                DirectDnsError::InvalidResponse => "invalid_response"@,
                DirectDnsError::QueryFailed => "query_failed"@,
                DirectDnsError::Timeout => "timeout"@,
                DirectDnsError::NetworkChanged => "network_changed"@,
                DirectDnsError::Cancelled => "cancelled"@,
                DirectDnsError::Busy => "busy"@,
            },
    {
        match self {
            DirectDnsError::Unsupported => "unsupported",
            DirectDnsError::InvalidConfiguration => "invalid_configuration",
            DirectDnsError::InvalidQuery => "invalid_query",
            DirectDnsError::BootstrapUnavailable => "bootstrap_unavailable",
            DirectDnsError::SocketProtectFailed => "socket_protect_failed",
            DirectDnsError::ConnectFailed => "connect_failed",
            DirectDnsError::TlsFailed => "tls_failed",
            DirectDnsError::AlpnMismatch => "alpn_mismatch",
            DirectDnsError::HttpRejected => "http_rejected",
            DirectDnsError::InvalidContentType => "invalid_content_type",
            DirectDnsError::ResponseTooLarge => "response_too_large",
            DirectDnsError::InvalidResponse => "invalid_response",
            DirectDnsError::QueryFailed => "query_failed",
            DirectDnsError::Timeout => "timeout",
            DirectDnsError::NetworkChanged => "network_changed",
            DirectDnsError::Cancelled => "cancelled",
            DirectDnsError::Busy => "busy",
        }
    }
}

/// Records a bootstrap address as tried, once.
pub fn remember_bootstrap(visited: &mut Vec<IpAddress>, ip: IpAddress)
    ensures
        final(visited)@ == if old(visited)@.contains(ip) {
            old(visited)@
        } else {
            old(visited)@.push(ip)
        },
{
    let mut index: usize = 0;
    while index < visited.len()
        invariant
            index <= visited@.len(),
            visited@ == old(visited)@,
            forall|i: int| 0 <= i < index ==> visited@[i] != ip,
        decreases visited@.len() - index,
    {
        if visited[index] == ip {
            return;
        }
        index = index + 1;
    }
    visited.push(ip);
}

/// Whether `ip` is among `addresses`.
fn contains_ip(addresses: &[IpAddress], ip: IpAddress) -> (found: bool)
    ensures
        found == addresses@.contains(ip),
{
    let mut index: usize = 0;
    while index < addresses.len()
        invariant
            index <= addresses@.len(),
            forall|i: int| 0 <= i < index ==> addresses@[i] != ip,
        decreases addresses@.len() - index,
    {
        if addresses[index] == ip {
            return true;
        }
        index = index + 1;
    }
    false
}

/// A bootstrap address may be tried: its endpoint is usable, it is not the
/// endpoint that just failed, and once two addresses were tried it is one
/// of them.
pub open spec fn bootstrap_allowed(
    ip: IpAddress,
    usable: bool,
    visited: Seq<IpAddress>,
    excluded: Option<IpAddress>,
) -> bool {
    &&& usable
    &&& excluded != Some(ip)
    &&& (visited.len() < 2 || visited.contains(ip))
}

/// The allowed endpoints among the first `count` bootstrap addresses, in
/// configuration order.
pub open spec fn allowed_endpoints(
    ips: Seq<IpAddress>,
    usable: Seq<bool>,
    port: u16,
    visited: Seq<IpAddress>,
    excluded: Option<IpAddress>,
    count: nat,
) -> Seq<SocketAddress>
    decreases count,
{
    if count == 0 {
        Seq::empty()
    } else {
        let earlier = allowed_endpoints(ips, usable, port, visited, excluded, (count - 1) as nat);
        let ip = ips[count - 1];
        if bootstrap_allowed(ip, usable[count - 1], visited, excluded) {
            earlier.push(SocketAddress { ip, port })
        } else {
            earlier
        }
    }
}

/// The endpoints of one family among `endpoints`, in order.
pub open spec fn of_family(endpoints: Seq<SocketAddress>, ipv4: bool) -> Seq<SocketAddress>
    decreases endpoints.len(),
{
    if endpoints.len() == 0 {
        Seq::empty()
    } else {
        let earlier = of_family(endpoints.drop_last(), ipv4);
        if (endpoints.last().ip is V4) == ipv4 {
            earlier.push(endpoints.last())
        } else {
            earlier
        }
    }
}

/// The endpoints stably ordered IPv6 first, as a stable sort by "is IPv4"
/// orders them.
pub open spec fn family_ordered(endpoints: Seq<SocketAddress>) -> Seq<SocketAddress> {
    of_family(endpoints, false) + of_family(endpoints, true)
}

/// The endpoints with the first one of the other family than the first
/// endpoint moved to second place, so both families are tried early.
pub open spec fn alternate_second(ordered: Seq<SocketAddress>, first_family_count: int) -> Seq<SocketAddress> {
    if 0 < first_family_count < ordered.len() {
        ordered.update(1, ordered[first_family_count]).update(first_family_count, ordered[1])
    } else {
        ordered
    }
}

/// The endpoints that fit a budget of two distinct addresses, starting from
/// the addresses already tried.
pub open spec fn within_budget(endpoints: Seq<SocketAddress>, budget: Seq<IpAddress>) -> Seq<SocketAddress>
    decreases endpoints.len(),
{
    if endpoints.len() == 0 {
        Seq::empty()
    } else {
        let first = endpoints[0];
        let rest = endpoints.drop_first();
        if budget.contains(first.ip) {
            seq![first] + within_budget(rest, budget)
        } else if budget.len() == 2 {
            within_budget(rest, budget)
        } else {
            seq![first] + within_budget(rest, budget.push(first.ip))
        }
    }
}

/// The bootstrap endpoints the next attempt may use: the allowed ones,
/// IPv6 first with the other family in second place, within a budget of two
/// distinct addresses per request, at most two of them.
pub open spec fn spec_bootstrap_candidates(
    ips: Seq<IpAddress>,
    usable: Seq<bool>,
    port: u16,
    visited: Seq<IpAddress>,
    excluded: Option<IpAddress>,
) -> Seq<SocketAddress> {
    let allowed = allowed_endpoints(ips, usable, port, visited, excluded, ips.len());
    let ordered = family_ordered(allowed);
    let first_family_count = if of_family(allowed, false).len() > 0 {
        of_family(allowed, false).len() as int
    } else {
        0
    };
    let budgeted = within_budget(alternate_second(ordered, first_family_count), visited);
    if budgeted.len() <= 2 {
        budgeted
    } else {
        budgeted.take(2)
    }
}

/// Appends the endpoints of one family in order.
fn push_family(endpoints: &Vec<SocketAddress>, ipv4: bool, target: &mut Vec<SocketAddress>)
    ensures
        final(target)@ == old(target)@ + of_family(endpoints@, ipv4),
{
    let mut index: usize = 0;
    while index < endpoints.len()
        invariant
            index <= endpoints@.len(),
            target@ == old(target)@ + of_family(endpoints@.take(index as int), ipv4),
        decreases endpoints@.len() - index,
    {
        assert(endpoints@.take(index + 1).drop_last() =~= endpoints@.take(index as int));
        let endpoint = endpoints[index];
        if endpoint.ip.is_ipv4() == ipv4 {
            target.push(endpoint);
        }
        index = index + 1;
        assert(target@ =~= old(target)@ + of_family(endpoints@.take(index as int), ipv4));
    }
    assert(endpoints@.take(endpoints@.len() as int) =~= endpoints@);
}

/// The bootstrap endpoints the next attempt of a query may use. `usable`
/// says for each configured address whether its endpoint's family is
/// available on the current network.
pub fn bootstrap_candidates(
    bootstrap_ips: &[IpAddress],
    usable: &[bool],
    port: u16,
    visited: &[IpAddress],
    excluded: Option<IpAddress>,
) -> (candidates: Vec<SocketAddress>)
    requires
        usable@.len() == bootstrap_ips@.len(),
    ensures
        candidates@ == spec_bootstrap_candidates(bootstrap_ips@, usable@, port, visited@, excluded),
{
    let mut allowed: Vec<SocketAddress> = Vec::new();
    let mut index: usize = 0;
    while index < bootstrap_ips.len()
        invariant
            index <= bootstrap_ips@.len(),
            usable@.len() == bootstrap_ips@.len(),
            allowed@ == allowed_endpoints(
                bootstrap_ips@,
                usable@,
                port,
                visited@,
                excluded,
                index as nat,
            ),
        decreases bootstrap_ips@.len() - index,
    {
        let ip = bootstrap_ips[index];
        let not_excluded = match excluded {
            Some(failed) => failed != ip,
            None => true,
        };
        if usable[index] && not_excluded && (visited.len() < 2 || contains_ip(visited, ip)) {
            allowed.push(SocketAddress { ip, port });
        }
        index = index + 1;
    }
    let mut ordered: Vec<SocketAddress> = Vec::new();
    push_family(&allowed, false, &mut ordered);
    let first_family_count = ordered.len();
    push_family(&allowed, true, &mut ordered);
    assert(ordered@ =~= family_ordered(allowed@));
    let ghost first_count: int = if of_family(allowed@, false).len() > 0 {
        of_family(allowed@, false).len() as int
    } else {
        0
    };
    if 0 < first_family_count && first_family_count < ordered.len() {
        let second = ordered[1];
        let alternate = ordered[first_family_count];
        ordered.set(1, alternate);
        ordered.set(first_family_count, second);
    }
    assert(ordered@ =~= alternate_second(family_ordered(allowed@), first_count));
    let mut budget: Vec<IpAddress> = Vec::new();
    let mut copied: usize = 0;
    while copied < visited.len()
        invariant
            copied <= visited@.len(),
            budget@ == visited@.take(copied as int),
        decreases visited@.len() - copied,
    {
        budget.push(visited[copied]);
        copied = copied + 1;
        assert(budget@ =~= visited@.take(copied as int));
    }
    assert(visited@.take(visited@.len() as int) =~= visited@);
    let ghost full = within_budget(ordered@, visited@);
    let mut candidates: Vec<SocketAddress> = Vec::new();
    assert(ordered@.skip(0) =~= ordered@);
    assert(candidates@ + within_budget(ordered@.skip(0), budget@) =~= full);
    let mut position: usize = 0;
    while position < ordered.len() && candidates.len() < 2
        invariant
            position <= ordered@.len(),
            candidates@.len() <= 2,
            full == within_budget(ordered@, visited@),
            full == candidates@ + within_budget(ordered@.skip(position as int), budget@),
        decreases ordered@.len() - position,
    {
        let endpoint = ordered[position];
        let ghost rest = ordered@.skip(position as int);
        assert(rest[0] == endpoint);
        assert(rest.drop_first() =~= ordered@.skip(position + 1));
        let known = contains_ip(budget.as_slice(), endpoint.ip);
        if known {
            candidates.push(endpoint);
            assert(full =~= candidates@ + within_budget(ordered@.skip(position + 1), budget@));
        } else if budget.len() == 2 {
        } else {
            budget.push(endpoint.ip);
            candidates.push(endpoint);
            assert(full =~= candidates@ + within_budget(ordered@.skip(position + 1), budget@));
        }
        position = position + 1;
    }
    proof {
        if candidates@.len() < 2 {
            assert(ordered@.skip(position as int).len() == 0);
            assert(full =~= candidates@);
        } else {
            assert(full.take(2) =~= candidates@);
        }
    }
    candidates
}

/// Law: a query never tries a third bootstrap address. At most two
/// candidates come back, and once two addresses were tried every candidate
/// is one of them.
pub proof fn lemma_bootstrap_never_uses_a_third(
    ips: Seq<IpAddress>,
    usable: Seq<bool>,
    port: u16,
    visited: Seq<IpAddress>,
    excluded: Option<IpAddress>,
)
    requires
        usable.len() == ips.len(),
    ensures
        spec_bootstrap_candidates(ips, usable, port, visited, excluded).len() <= 2,
        visited.len() >= 2 ==> forall|i: int|
            0 <= i < spec_bootstrap_candidates(ips, usable, port, visited, excluded).len()
                ==> visited.contains(
                #[trigger] spec_bootstrap_candidates(ips, usable, port, visited, excluded)[i].ip,
            ),
{
    let allowed = allowed_endpoints(ips, usable, port, visited, excluded, ips.len());
    let ordered = family_ordered(allowed);
    let first_family_count = if of_family(allowed, false).len() > 0 {
        of_family(allowed, false).len() as int
    } else {
        0
    };
    let swapped = alternate_second(ordered, first_family_count);
    if visited.len() >= 2 {
        lemma_allowed_are_visited(ips, usable, port, visited, excluded, ips.len());
        lemma_of_family_keeps(allowed, false, visited);
        lemma_of_family_keeps(allowed, true, visited);
        assert forall|i: int| 0 <= i < swapped.len() implies visited.contains(#[trigger] swapped[i].ip) by {
            assert(forall|j: int| 0 <= j < ordered.len() ==> visited.contains(#[trigger] ordered[j].ip));
        }
        lemma_within_budget_keeps(swapped, visited, visited);
    }
}

proof fn lemma_allowed_are_visited(
    ips: Seq<IpAddress>,
    usable: Seq<bool>,
    port: u16,
    visited: Seq<IpAddress>,
    excluded: Option<IpAddress>,
    count: nat,
)
    requires
        visited.len() >= 2,
        count <= ips.len(),
        usable.len() == ips.len(),
    ensures
        forall|i: int|
            0 <= i < allowed_endpoints(ips, usable, port, visited, excluded, count).len()
                ==> visited.contains(
                #[trigger] allowed_endpoints(ips, usable, port, visited, excluded, count)[i].ip,
            ),
    decreases count,
{
    if count > 0 {
        lemma_allowed_are_visited(ips, usable, port, visited, excluded, (count - 1) as nat);
    }
}

proof fn lemma_of_family_keeps(endpoints: Seq<SocketAddress>, ipv4: bool, visited: Seq<IpAddress>)
    requires
        forall|i: int| 0 <= i < endpoints.len() ==> visited.contains(#[trigger] endpoints[i].ip),
    ensures
        forall|i: int|
            0 <= i < of_family(endpoints, ipv4).len() ==> visited.contains(
                #[trigger] of_family(endpoints, ipv4)[i].ip,
            ),
    decreases endpoints.len(),
{
    if endpoints.len() > 0 {
        let earlier = endpoints.drop_last();
        assert forall|i: int| 0 <= i < earlier.len() implies visited.contains(#[trigger] earlier[i].ip) by {
            assert(earlier[i] == endpoints[i]);
        }
        lemma_of_family_keeps(earlier, ipv4, visited);
    }
}

proof fn lemma_within_budget_keeps(endpoints: Seq<SocketAddress>, budget: Seq<IpAddress>, visited: Seq<IpAddress>)
    requires
        forall|i: int| 0 <= i < endpoints.len() ==> visited.contains(#[trigger] endpoints[i].ip),
    ensures
        forall|i: int|
            0 <= i < within_budget(endpoints, budget).len() ==> visited.contains(
                #[trigger] within_budget(endpoints, budget)[i].ip,
            ),
        within_budget(endpoints, budget).len() <= endpoints.len(),
    decreases endpoints.len(),
{
    if endpoints.len() > 0 {
        let rest = endpoints.drop_first();
        assert forall|i: int| 0 <= i < rest.len() implies visited.contains(#[trigger] rest[i].ip) by {
            assert(rest[i] == endpoints[i + 1]);
        }
        lemma_within_budget_keeps(rest, budget, visited);
        lemma_within_budget_keeps(rest, budget.push(endpoints[0].ip), visited);
        assert(visited.contains(endpoints[0].ip));
    }
}

/// The shortest DNS message: its fixed header.
pub const DNS_HEADER_LENGTH: usize = 12;

/// Whether a query is admitted: a message shorter than a DNS header or
/// longer than the DNS bound is invalid; a valid one is busy when no query
/// slot is free.
pub fn admit_query(length: usize, slot_available: bool) -> (admitted: Result<(), DirectDnsError>)
    ensures
        admitted == if length > MAX_DNS_MESSAGE || length < DNS_HEADER_LENGTH {
            Err(DirectDnsError::InvalidQuery)
        } else if !slot_available {
            Err(DirectDnsError::Busy)
        } else {
            Ok(())
        },
{
    if length > MAX_DNS_MESSAGE || length < DNS_HEADER_LENGTH {
        return Err(DirectDnsError::InvalidQuery);
    }
    if !slot_available {
        return Err(DirectDnsError::Busy);
    }
    Ok(())
}

/// Whether a query may go on: not once the resolver was shut down, and not
/// once the network generation moved past the one the query started on.
pub fn ensure_current(resolver_cancelled: bool, current_generation: u64, query_generation: u64) -> (current:
    Result<(), DirectDnsError>)
    ensures
        current == if resolver_cancelled {
            Err(DirectDnsError::Cancelled)
        } else if current_generation != query_generation {
            Err(DirectDnsError::NetworkChanged)
        } else {
            Ok(())
        },
{
    if resolver_cancelled {
        return Err(DirectDnsError::Cancelled);
    }
    if current_generation != query_generation {
        return Err(DirectDnsError::NetworkChanged);
    }
    Ok(())
}

/// What a query does after one of its attempts failed.
#[derive(Debug, Clone, Copy, PartialEq, Eq, Structural)]
pub enum RetryDecision {
    /// The query ends with this failure.
    Fail(DirectDnsError),
    /// The query tries once more, never on this bootstrap address.
    RetryExcluding(IpAddress),
}

/// Whether a failure code lets a query try another bootstrap endpoint.
pub open spec fn spec_permits_retry(error: DirectDnsError) -> bool {
    !(error is Unsupported || error is InvalidConfiguration || error is InvalidQuery
        || error is NetworkChanged || error is Cancelled || error is Timeout || error is Busy)
}

/// The decision after attempt `attempt` (counted from zero) failed with
/// `error` on `endpoint`, when `visited` were the addresses tried so far.
pub open spec fn spec_retry_decision(
    attempt: u32,
    error: DirectDnsError,
    endpoint: Option<SocketAddress>,
    ips: Seq<IpAddress>,
    usable: Seq<bool>,
    port: u16,
    visited: Seq<IpAddress>,
) -> RetryDecision {
    match endpoint {
        Some(failed) => if attempt == 0 && spec_permits_retry(error)
            && spec_bootstrap_candidates(ips, usable, port, visited, Some(failed.ip)).len() > 0 {
            RetryDecision::RetryExcluding(failed.ip)
        } else {
            RetryDecision::Fail(error)
        },
        None => RetryDecision::Fail(error),
    }
}

/// Decides whether a failed attempt is retried: only the first attempt,
/// only on a failure that permits a retry, only when the endpoint that
/// failed is known, and only when another bootstrap candidate remains with
/// that endpoint's address left out.
pub fn after_failed_attempt(
    attempt: u32,
    error: DirectDnsError,
    endpoint: Option<SocketAddress>,
    bootstrap_ips: &[IpAddress],
    usable: &[bool],
    port: u16,
    visited: &[IpAddress],
) -> (decision: RetryDecision)
    requires
        usable@.len() == bootstrap_ips@.len(),
    ensures
        decision == spec_retry_decision(attempt, error, endpoint, bootstrap_ips@, usable@, port, visited@),
{
    if attempt != 0 || !error.permits_retry() {
        return RetryDecision::Fail(error);
    }
    match endpoint {
        None => RetryDecision::Fail(error),
        Some(failed) => {
            let remaining = bootstrap_candidates(bootstrap_ips, usable, port, visited, Some(failed.ip));
            if remaining.len() == 0 {
                RetryDecision::Fail(error)
            } else {
                RetryDecision::RetryExcluding(failed.ip)
            }
        },
    }
}

/// Law: a query makes at most two attempts. Only the first failure can be
/// retried, and a retry never returns to the address that failed.
pub proof fn lemma_at_most_one_retry(
    attempt: u32,
    error: DirectDnsError,
    endpoint: Option<SocketAddress>,
    ips: Seq<IpAddress>,
    usable: Seq<bool>,
    port: u16,
    visited: Seq<IpAddress>,
)
    ensures
        attempt >= 1 ==> spec_retry_decision(attempt, error, endpoint, ips, usable, port, visited)
            == RetryDecision::Fail(error),
        spec_retry_decision(attempt, error, endpoint, ips, usable, port, visited) matches
            RetryDecision::RetryExcluding(skipped) ==> endpoint == Some(
            SocketAddress { ip: skipped, port: endpoint->0.port },
        ) && spec_permits_retry(error),
{
}

/// The DNS-relevant headers of a DNS-over-HTTPS answer, as received.
#[derive(Debug)]
pub struct DohResponseHeaders {
    /// Every `Content-Type` value.
    pub content_types: Vec<Vec<u8>>,
    /// A `Content-Encoding` header is present.
    pub has_content_encoding: bool,
    /// Every `Content-Length` value.
    pub content_lengths: Vec<Vec<u8>>,
}

/// A header value that is visible ASCII, as `HeaderValue::to_str` demands.
pub open spec fn is_visible_ascii(value: Seq<u8>) -> bool {
    forall|i: int| 0 <= i < value.len() ==> (#[trigger] value[i] == 9 || 32 <= value[i] <= 126)
}

/// The decimal value of `digits`.
pub open spec fn decimal_value(digits: Seq<u8>) -> nat
    decreases digits.len(),
{
    if digits.len() == 0 {
        0
    } else {
        decimal_value(digits.drop_last()) * 10 + (digits.last() - 48) as nat
    }
}

/// All bytes are ASCII digits.
pub open spec fn all_digits(digits: Seq<u8>) -> bool {
    forall|i: int| 0 <= i < digits.len() ==> 48 <= #[trigger] digits[i] <= 57
}

/// The length a `Content-Length` value states, as `str::parse::<usize>`
/// reads it: an optional `+` and at least one decimal digit, in range.
pub open spec fn spec_content_length(value: Seq<u8>) -> Option<usize> {
    let digits = if value.len() > 0 && value[0] == 43 { value.drop_first() } else { value };
    if !is_visible_ascii(value) || digits.len() == 0 || !all_digits(digits) || decimal_value(digits)
        > usize::MAX {
        None
    } else {
        Some(decimal_value(digits) as usize)
    }
}

/// Reads a `Content-Length` value.
pub fn parse_content_length(value: &[u8]) -> (length: Option<usize>)
    ensures
        length == spec_content_length(value@),
{
    let mut index: usize = 0;
    while index < value.len()
        invariant
            index <= value@.len(),
            forall|i: int| 0 <= i < index ==> (#[trigger] value@[i] == 9 || 32 <= value@[i] <= 126),
        decreases value@.len() - index,
    {
        let byte = value[index];
        if !(byte == 9 || (32 <= byte && byte <= 126)) {
            return None;
        }
        index = index + 1;
    }
    let start: usize = if value.len() > 0 && value[0] == 43 {
        1
    } else {
        0
    };
    let ghost digits = value@.skip(start as int);
    assert(digits =~= if value@.len() > 0 && value@[0] == 43 {
        value@.drop_first()
    } else {
        value@
    });
    if start == value.len() {
        return None;
    }
    let mut total: usize = 0;
    let mut position = start;
    while position < value.len()
        invariant
            start <= position <= value@.len(),
            start < value@.len(),
            digits == value@.skip(start as int),
            is_visible_ascii(value@),
            digits =~= if value@.len() > 0 && value@[0] == 43 {
                value@.drop_first()
            } else {
                value@
            },
            all_digits(value@.subrange(start as int, position as int)),
            total == decimal_value(value@.subrange(start as int, position as int)),
        decreases value@.len() - position,
    {
        let byte = value[position];
        if byte < 48 || byte > 57 {
            assert(digits[position - start] == byte);
            return None;
        }
        let digit = (byte - 48) as usize;
        let ghost prefix = value@.subrange(start as int, position + 1);
        assert(prefix.drop_last() =~= value@.subrange(start as int, position as int));
        if total > (usize::MAX - digit) / 10 {
            proof {
                assert(total * 10 + digit > usize::MAX) by (nonlinear_arith)
                    requires
                        total > (usize::MAX - digit) / 10,
                        digit <= 9,
                ;
                assert(decimal_value(prefix) == total * 10 + digit);
                if all_digits(digits) {
                    lemma_decimal_value_monotone(digits, (position + 1 - start) as nat);
                    assert(digits.take((position + 1 - start) as int) =~= prefix);
                }
            }
            return None;
        }
        total = total * 10 + digit;
        position = position + 1;
    }
    assert(value@.subrange(start as int, value@.len() as int) =~= digits);
    Some(total)
}

/// A longer run of digits never reads smaller than its prefix.
pub proof fn lemma_decimal_value_monotone(digits: Seq<u8>, count: nat)
    requires
        count <= digits.len(),
        all_digits(digits),
    ensures
        decimal_value(digits.take(count as int)) <= decimal_value(digits),
    decreases digits.len() - count,
{
    if count < digits.len() {
        lemma_decimal_value_monotone(digits, count + 1);
        let longer = digits.take(count + 1int);
        assert(longer.drop_last() =~= digits.take(count as int));
    } else {
        assert(digits.take(count as int) =~= digits);
    }
}

/// The answer's header check: exactly one `Content-Type`, declaring a DNS
/// message; no `Content-Encoding`; every `Content-Length` readable and at
/// most `MAX_DNS_MESSAGE`.
pub open spec fn spec_validate_doh_headers(
    content_types: Seq<Seq<u8>>,
    has_content_encoding: bool,
    content_lengths: Seq<Seq<u8>>,
) -> Result<(), DirectDnsError> {
    if content_types.len() != 1 || !spec_valid_dns_media_type(content_types[0]) {
        Err(DirectDnsError::InvalidContentType)
    } else if has_content_encoding {
        Err(DirectDnsError::InvalidResponse)
    } else {
        first_length_failure(content_lengths)
    }
}

/// The first `Content-Length` value that is unreadable or too large, as the
/// failure it causes.
pub open spec fn first_length_failure(lengths: Seq<Seq<u8>>) -> Result<(), DirectDnsError>
    decreases lengths.len(),
{
    if lengths.len() == 0 {
        Ok(())
    } else {
        match spec_content_length(lengths[0]) {
            None => Err(DirectDnsError::InvalidResponse),
            Some(length) => if length > MAX_DNS_MESSAGE {
                Err(DirectDnsError::ResponseTooLarge)
            } else {
                first_length_failure(lengths.drop_first())
            },
        }
    }
}

/// The views of a list of header values.
pub open spec fn header_values(values: Seq<Vec<u8>>) -> Seq<Seq<u8>> {
    values.map_values(|value: Vec<u8>| value@)
}

/// Checks the headers of a DNS-over-HTTPS answer.
pub fn validate_doh_headers(headers: &DohResponseHeaders) -> (result: Result<(), DirectDnsError>)
    ensures
        result == spec_validate_doh_headers(
            header_values(headers.content_types@),
            headers.has_content_encoding,
            header_values(headers.content_lengths@),
        ),
{
    if headers.content_types.len() != 1 || !valid_dns_media_type(
        headers.content_types[0].as_slice(),
    ) {
        return Err(DirectDnsError::InvalidContentType);
    }
    if headers.has_content_encoding {
        return Err(DirectDnsError::InvalidResponse);
    }
    let ghost lengths = header_values(headers.content_lengths@);
    let mut index: usize = 0;
    assert(lengths.skip(0) =~= lengths);
    while index < headers.content_lengths.len()
        invariant
            index <= headers.content_lengths@.len(),
            headers.content_types@.len() == 1,
            spec_valid_dns_media_type(headers.content_types@[0]@),
            !headers.has_content_encoding,
            lengths == header_values(headers.content_lengths@),
            first_length_failure(lengths) == first_length_failure(lengths.skip(index as int)),
        decreases headers.content_lengths@.len() - index,
    {
        let ghost rest = lengths.skip(index as int);
        assert(rest[0] == headers.content_lengths@[index as int]@);
        assert(rest.drop_first() =~= lengths.skip(index + 1));
        match parse_content_length(headers.content_lengths[index].as_slice()) {
            None => return Err(DirectDnsError::InvalidResponse),
            Some(length) => {
                if length > MAX_DNS_MESSAGE {
                    return Err(DirectDnsError::ResponseTooLarge);
                }
            },
        }
        index = index + 1;
    }
    assert(lengths.skip(index as int).len() == 0);
    Ok(())
}

/// The most queries one encrypted connection carries before it is replaced.
pub const MAX_QUERIES_PER_CONNECTION: u32 = 1_000;

/// An idle encrypted connection older than this, 60 s, is not reused.
pub const IDLE_TIMEOUT_NANOS: u128 = 60_000_000_000;

/// What decides whether a pooled connection serves a query.
#[derive(Debug, Clone, Copy, PartialEq, Eq, Structural)]
pub struct PooledConnection {
    pub generation: u64,
    pub endpoint: IpAddress,
    pub queries: u32,
    pub idle_nanos: u128,
}

/// A pooled connection serves the query when it belongs to the current
/// network generation, is not the endpoint that just failed, keeps the
/// request within its two bootstrap addresses, has queries left and has
/// not idled out.
pub open spec fn spec_connection_reusable(
    connection: PooledConnection,
    generation: u64,
    visited: Seq<IpAddress>,
    excluded: Option<IpAddress>,
) -> bool {
    &&& connection.generation == generation
    &&& excluded != Some(connection.endpoint)
    &&& (visited.len() < 2 || visited.contains(connection.endpoint))
    &&& connection.queries < MAX_QUERIES_PER_CONNECTION
    &&& connection.idle_nanos < IDLE_TIMEOUT_NANOS
}

pub fn connection_reusable(
    connection: PooledConnection,
    generation: u64,
    visited: &[IpAddress],
    excluded: Option<IpAddress>,
) -> (reusable: bool)
    ensures
        reusable == spec_connection_reusable(connection, generation, visited@, excluded),
{
    let not_excluded = match excluded {
        Some(failed) => failed != connection.endpoint,
        None => true,
    };
    connection.generation == generation && not_excluded && (visited.len() < 2 || contains_ip(
        visited,
        connection.endpoint,
    )) && connection.queries < MAX_QUERIES_PER_CONNECTION && connection.idle_nanos
        < IDLE_TIMEOUT_NANOS
}

/// A connection's query count after a successful query, and whether it
/// goes back to the pool: it is retired at its thousandth query.
pub fn after_successful_query(queries: u32) -> (outcome: (u32, bool))
    requires
        queries < MAX_QUERIES_PER_CONNECTION,
    ensures
        outcome.0 == queries + 1,
        outcome.1 == (queries + 1 < MAX_QUERIES_PER_CONNECTION),
{
    let count = queries + 1;
    (count, count < MAX_QUERIES_PER_CONNECTION)
}

/// A pooled DNS-over-HTTPS connection as a query finds it: shared by
/// concurrent requests, so it also counts the requests it is serving, may
/// have been closed by its peer, and may have no request permit left.
#[derive(Debug, Clone, Copy, PartialEq, Eq, Structural)]
pub struct SharedConnection {
    pub connection: PooledConnection,
    pub active: usize,
    pub closed: bool,
    pub permit_available: bool,
}

/// What a DNS-over-HTTPS query does with one pool slot.
#[derive(Debug, Clone, Copy, PartialEq, Eq, Structural)]
pub enum DohSlotAction {
    /// Reserve a request on the pooled connection.
    Reserve,
    /// Leave the slot and look at the next one.
    Skip,
    /// Drop what the slot holds, if anything, and connect anew into it.
    Replace,
}

/// A pooled connection is obsolete once it belongs to another network
/// generation, was closed, used up its queries or idled out.
pub open spec fn spec_obsolete(shared: SharedConnection, generation: u64) -> bool {
    ||| shared.connection.generation != generation
    ||| shared.closed
    ||| shared.connection.queries >= MAX_QUERIES_PER_CONNECTION
    ||| shared.connection.idle_nanos >= IDLE_TIMEOUT_NANOS
}

/// The endpoint of a pooled connection may serve the query: it is not the
/// one that just failed and keeps the query within two bootstrap addresses.
pub open spec fn spec_endpoint_allowed(endpoint: IpAddress, visited: Seq<IpAddress>, excluded: Option<IpAddress>) -> bool {
    excluded != Some(endpoint) && (visited.len() < 2 || visited.contains(endpoint))
}

/// The action for a slot: an empty slot is filled; a usable connection with
/// a free permit is reserved; a connection that still serves requests, or
/// that is usable but momentarily full, is left alone; any other is
/// replaced.
pub open spec fn spec_doh_slot_action(
    slot: Option<SharedConnection>,
    generation: u64,
    visited: Seq<IpAddress>,
    excluded: Option<IpAddress>,
) -> DohSlotAction {
    match slot {
        None => DohSlotAction::Replace,
        Some(shared) => {
            let usable = !spec_obsolete(shared, generation) && spec_endpoint_allowed(
                shared.connection.endpoint,
                visited,
                excluded,
            );
            if usable && shared.permit_available {
                DohSlotAction::Reserve
            } else if shared.active != 0 || usable {
                DohSlotAction::Skip
            } else {
                DohSlotAction::Replace
            }
        },
    }
}

/// Decides what a DNS-over-HTTPS query does with one pool slot.
pub fn doh_slot_action(
    slot: Option<SharedConnection>,
    generation: u64,
    visited: &[IpAddress],
    excluded: Option<IpAddress>,
) -> (action: DohSlotAction)
    ensures
        action == spec_doh_slot_action(slot, generation, visited@, excluded),
{
    match slot {
        None => DohSlotAction::Replace,
        Some(shared) => {
            let connection = shared.connection;
            let obsolete = connection.generation != generation || shared.closed || connection.queries
                >= MAX_QUERIES_PER_CONNECTION || connection.idle_nanos >= IDLE_TIMEOUT_NANOS;
            let not_excluded = match excluded {
                Some(failed) => failed != connection.endpoint,
                None => true,
            };
            let endpoint_ok = not_excluded && (visited.len() < 2 || contains_ip(visited, connection.endpoint));
            let usable = !obsolete && endpoint_ok;
            if usable && shared.permit_available {
                DohSlotAction::Reserve
            } else if shared.active != 0 || usable {
                DohSlotAction::Skip
            } else {
                DohSlotAction::Replace
            }
        },
    }
}

/// Law: a query reserves only a connection that a pooled-connection check
/// would reuse and that is still open, and it never replaces a connection
/// that is serving requests.
pub proof fn lemma_doh_slots_are_safe(
    shared: SharedConnection,
    generation: u64,
    visited: Seq<IpAddress>,
    excluded: Option<IpAddress>,
)
    ensures
        spec_doh_slot_action(Some(shared), generation, visited, excluded) == DohSlotAction::Reserve
            ==> spec_connection_reusable(shared.connection, generation, visited, excluded) && !shared.closed
            && shared.permit_available,
        shared.active != 0 ==> spec_doh_slot_action(Some(shared), generation, visited, excluded)
            != DohSlotAction::Replace,
{
}

/// Whether an idle sweep drops a pooled DNS-over-HTTPS connection: every
/// one when `all`, one of another generation or closed, and an unused one
/// that used up its queries or idled out.
pub fn doh_connection_expired(shared: SharedConnection, generation: u64, all: bool) -> (expired: bool)
    ensures
        expired == (all || shared.connection.generation != generation || shared.closed || shared.active == 0
            && (shared.connection.queries >= MAX_QUERIES_PER_CONNECTION || shared.connection.idle_nanos
            >= IDLE_TIMEOUT_NANOS)),
{
    let connection = shared.connection;
    all || connection.generation != generation || shared.closed || shared.active == 0 && (connection.queries
        >= MAX_QUERIES_PER_CONNECTION || connection.idle_nanos >= IDLE_TIMEOUT_NANOS)
}

/// Whether an idle sweep drops a pooled DNS-over-TLS connection: every one
/// when `all`, and one of another generation, out of queries or idled out.
pub fn dot_connection_expired(connection: PooledConnection, generation: u64, all: bool) -> (expired: bool)
    ensures
        expired == (all || connection.generation != generation || connection.queries >= MAX_QUERIES_PER_CONNECTION
            || connection.idle_nanos >= IDLE_TIMEOUT_NANOS),
{
    all || connection.generation != generation || connection.queries >= MAX_QUERIES_PER_CONNECTION
        || connection.idle_nanos >= IDLE_TIMEOUT_NANOS
}

/// The body length a DNS-over-TLS reply announces in its two-byte prefix:
/// a reply of length zero is invalid.
pub fn dot_reply_length(length: u16) -> (body: Result<usize, DirectDnsError>)
    ensures
        length == 0 ==> body == Err::<usize, DirectDnsError>(DirectDnsError::InvalidResponse),
        length != 0 ==> body == Ok::<usize, DirectDnsError>(length as usize),
{
    if length == 0 {
        Err(DirectDnsError::InvalidResponse)
    } else {
        Ok(length as usize)
    }
}

/// What becomes of a DNS-over-TLS connection after one exchange on it that
/// had made `queries` queries before: a failed exchange drops it, so the
/// next query dials anew; a successful one counts the query and puts the
/// connection back into its slot only while it has queries left. The result
/// is the new query count of a kept connection.
pub fn dot_connection_after_exchange(succeeded: bool, queries: u32) -> (kept: Option<u32>)
    requires
        queries < MAX_QUERIES_PER_CONNECTION,
    ensures
        !succeeded ==> kept is None,
        succeeded && queries + 1 < MAX_QUERIES_PER_CONNECTION ==> kept == Some((queries + 1) as u32),
        succeeded && queries + 1 >= MAX_QUERIES_PER_CONNECTION ==> kept is None,
{
    if !succeeded {
        return None;
    }
    let (count, keep) = after_successful_query(queries);
    if keep {
        Some(count)
    } else {
        None
    }
}

/// Checks a DNS-over-HTTPS answer before its body is read: any status but
/// 200 is a rejection; then its headers must pass.
pub fn check_doh_response(status: http::StatusCode, headers: &DohResponseHeaders) -> (result: Result<
    (),
    DirectDnsError,
>)
    ensures
        status_code_value(status) != 200 ==> result == Err::<(), DirectDnsError>(DirectDnsError::HttpRejected),
        status_code_value(status) == 200 ==> result == spec_validate_doh_headers(
            header_values(headers.content_types@),
            headers.has_content_encoding,
            header_values(headers.content_lengths@),
        ),
{
    if status_code_as_u16(&status) != 200 {
        return Err(DirectDnsError::HttpRejected);
    }
    validate_doh_headers(headers)
}

/// A failed attempt of an encrypted query: the failure code, and the
/// bootstrap endpoint it happened on when one had been chosen, so that a
/// retry can avoid that endpoint.
#[derive(Debug, Clone, Copy, PartialEq, Eq, Structural)]
pub struct QueryFailure {
    pub error: DirectDnsError,
    pub endpoint: Option<SocketAddress>,
}

impl QueryFailure {
    /// A failure on the chosen endpoint: every failure of an exchange on a
    /// connection, from the request to the answer's checks, carries it.
    pub fn on_endpoint(error: DirectDnsError, endpoint: SocketAddress) -> (failure: Self)
        ensures
            failure.error == error,
            failure.endpoint == Some(endpoint),
    {
        QueryFailure { error, endpoint: Some(endpoint) }
    }

    /// A failure before any endpoint was chosen.
    pub fn before_endpoint(error: DirectDnsError) -> (failure: Self)
        ensures
            failure.error == error,
            failure.endpoint is None,
    {
        QueryFailure { error, endpoint: None }
    }
}

/// A DNS-over-HTTPS body stays within the DNS message bound as chunks
/// arrive.
pub fn body_fits(received: usize, chunk: usize) -> (fits: bool)
    ensures
        fits == (received + chunk <= MAX_DNS_MESSAGE),
{
    received.saturating_add(chunk) <= MAX_DNS_MESSAGE
}

} // verus!

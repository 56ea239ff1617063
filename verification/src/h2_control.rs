//! HTTP/2 connection setup and tuning: how a failed TLS handshake, the
//! negotiated ALPN and the CONNECT response are judged, receive-window
//! sizes chosen by feature flags, and the PING round-trip estimator that
//! sizes the liveness timeout.
//!
//! Durations here are whole nanoseconds, the value `Duration::as_nanos`
//! gives; a `Duration` never exceeds `MAX_DURATION_NANOS`.

use vstd::prelude::*;

use crate::error::{status_code_as_u16, status_code_value, TransportError};
use crate::feature_flags::NetworkFeatureFlags;

verus! {

/// The nanoseconds in `Duration::MAX`.
pub const MAX_DURATION_NANOS: u128 = 18_446_744_073_709_551_615_999_999_999;

/// PINGs go out every five seconds.
pub const H2_PING_INTERVAL_NANOS: u128 = 5_000_000_000;

/// The PING timeout before any round trip was measured.
pub const H2_PING_DEFAULT_TIMEOUT_NANOS: u128 = 5_000_000_000;

/// The shortest adaptive PING timeout.
pub const H2_PING_MIN_TIMEOUT_NANOS: u128 = 2_000_000_000;

/// The longest adaptive PING timeout.
pub const H2_PING_MAX_TIMEOUT_NANOS: u128 = 10_000_000_000;

/// The RFC 9113 initial window, used when tuned flow control is off.
pub const H2_DEFAULT_WINDOW: u32 = 65_535;

/// The tuned per-stream receive window, 4 MiB.
pub const H2_TUNED_STREAM_WINDOW: u32 = 4_194_304;

/// The tuned connection receive window, 8 MiB.
pub const H2_TUNED_CONNECTION_WINDOW: u32 = 8_388_608;

/// The receive windows an HTTP/2 connection advertises.
#[derive(Debug, Clone, Copy, PartialEq, Eq, Structural)]
pub struct H2FlowControlConfig {
    pub stream_receive_window: u32,
    pub connection_receive_window: u32,
}

impl H2FlowControlConfig {
    /// Tuned windows when `h2_tuned_flow_control` is on, the protocol
    /// defaults otherwise; no other flag has a say.
    pub fn for_features(features: NetworkFeatureFlags) -> (config: Self)
        ensures
            config.stream_receive_window == if features.h2_tuned_flow_control {
                H2_TUNED_STREAM_WINDOW
            } else {
                H2_DEFAULT_WINDOW
            },
            config.connection_receive_window == if features.h2_tuned_flow_control {
                H2_TUNED_CONNECTION_WINDOW
            } else {
                H2_DEFAULT_WINDOW
            },
    {
        if features.h2_tuned_flow_control {
            H2FlowControlConfig {
                stream_receive_window: H2_TUNED_STREAM_WINDOW,
                connection_receive_window: H2_TUNED_CONNECTION_WINDOW,
            }
        } else {
            H2FlowControlConfig {
                stream_receive_window: H2_DEFAULT_WINDOW,
                connection_receive_window: H2_DEFAULT_WINDOW,
            }
        }
    }
}

impl Default for H2FlowControlConfig {
    /// The production configuration: tuned windows.
    fn default() -> (config: Self)
        ensures
            config.stream_receive_window == H2_TUNED_STREAM_WINDOW,
            config.connection_receive_window == H2_TUNED_CONNECTION_WINDOW,
    {
        H2FlowControlConfig::for_features(crate::feature_flags::production_network_features())
    }
}

/// Law: flow-control rollback is explicit. Two flag sets that agree on
/// `h2_tuned_flow_control` give the same windows, whatever the other flags.
pub proof fn lemma_windows_depend_only_on_the_tuning_flag(
    first: NetworkFeatureFlags,
    second: NetworkFeatureFlags,
    first_config: H2FlowControlConfig,
    second_config: H2FlowControlConfig,
)
    requires
        first.h2_tuned_flow_control == second.h2_tuned_flow_control,
        first_config.stream_receive_window == if first.h2_tuned_flow_control {
            H2_TUNED_STREAM_WINDOW
        } else {
            H2_DEFAULT_WINDOW
        },
        first_config.connection_receive_window == if first.h2_tuned_flow_control {
            H2_TUNED_CONNECTION_WINDOW
        } else {
            H2_DEFAULT_WINDOW
        },
        second_config.stream_receive_window == if second.h2_tuned_flow_control {
            H2_TUNED_STREAM_WINDOW
        } else {
            H2_DEFAULT_WINDOW
        },
        second_config.connection_receive_window == if second.h2_tuned_flow_control {
            H2_TUNED_CONNECTION_WINDOW
        } else {
            H2_DEFAULT_WINDOW
        },
    ensures
        first_config == second_config,
{
}

/// The 7/8 exponentially weighted moving average of `previous` and
/// `sample`, truncated to whole nanoseconds.
pub open spec fn spec_duration_ewma(previous: u128, sample: u128) -> u128 {
    ((previous * 7 + sample) / 8) as u128
}

/// Folds `sample` into the running average `previous`.
pub fn duration_ewma(previous: u128, sample: u128) -> (average: u128)
    requires
        previous <= MAX_DURATION_NANOS,
        sample <= MAX_DURATION_NANOS,
    ensures
        average == spec_duration_ewma(previous, sample),
        average <= MAX_DURATION_NANOS,
{
    (previous * 7 + sample) / 8
}

/// Law: a moving average stays between its two inputs.
pub proof fn lemma_ewma_is_between(previous: u128, sample: u128)
    ensures
        previous <= sample ==> previous <= spec_duration_ewma(previous, sample) <= sample,
        sample <= previous ==> sample <= spec_duration_ewma(previous, sample) <= previous,
{
}

/// One round-trip observation: the measurement and the estimator's state
/// after it.
#[derive(Debug, Clone, Copy, PartialEq, Eq, Structural)]
pub struct H2RttSample {
    pub latest: u128,
    pub smoothed: u128,
    pub minimum: u128,
    pub variance: u128,
}

/// Smoothed round-trip time, its smoothed deviation and the least round
/// trip seen, each absent until the first observation.
#[derive(Debug, Clone, Copy, PartialEq, Eq, Structural)]
pub struct H2RttEstimator {
    pub smoothed: Option<u128>,
    pub minimum: Option<u128>,
    pub variance: Option<u128>,
}

/// The value is absent or a valid duration.
pub open spec fn within_duration(value: Option<u128>) -> bool {
    match value {
        Some(nanos) => nanos <= MAX_DURATION_NANOS,
        None => true,
    }
}

/// `|a - b|`.
pub open spec fn spec_abs_diff(a: u128, b: u128) -> u128 {
    if a >= b { (a - b) as u128 } else { (b - a) as u128 }
}

/// The estimator and sample after observing `latest`.
pub open spec fn spec_observe(state: H2RttEstimator, latest: u128) -> (H2RttEstimator, H2RttSample) {
    let previous_smoothed = match state.smoothed {
        Some(smoothed) => smoothed,
        None => latest,
    };
    let smoothed = match state.smoothed {
        Some(previous) => spec_duration_ewma(previous, latest),
        None => latest,
    };
    let deviation = spec_abs_diff(previous_smoothed, latest);
    let variance = match state.variance {
        Some(previous) => spec_duration_ewma(previous, deviation),
        None => deviation,
    };
    let minimum = match state.minimum {
        Some(minimum) => if latest < minimum { latest } else { minimum },
        None => latest,
    };
    (
        H2RttEstimator { smoothed: Some(smoothed), minimum: Some(minimum), variance: Some(variance) },
        H2RttSample { latest, smoothed, minimum, variance },
    )
}

/// The PING timeout: three smoothed round trips, clamped to [2 s, 10 s];
/// 5 s before any round trip was measured.
pub open spec fn spec_ping_timeout(smoothed: Option<u128>) -> u128 {
    match smoothed {
        None => H2_PING_DEFAULT_TIMEOUT_NANOS,
        Some(smoothed) => {
            let tripled = smoothed * 3;
            if tripled < H2_PING_MIN_TIMEOUT_NANOS {
                H2_PING_MIN_TIMEOUT_NANOS
            } else if tripled > H2_PING_MAX_TIMEOUT_NANOS {
                H2_PING_MAX_TIMEOUT_NANOS
            } else {
                tripled as u128
            }
        },
    }
}

impl H2RttEstimator {
    /// Every stored value is a valid duration.
    pub open spec fn well_formed(&self) -> bool {
        &&& within_duration(self.smoothed)
        &&& within_duration(self.minimum)
        &&& within_duration(self.variance)
    }

    /// An estimator with no observation yet.
    pub fn new() -> (estimator: Self)
        ensures
            estimator.smoothed is None,
            estimator.minimum is None,
            estimator.variance is None,
    {
        H2RttEstimator { smoothed: None, minimum: None, variance: None }
    }

    /// Records a round trip of `latest` nanoseconds.
    pub fn observe(&mut self, latest: u128) -> (sample: H2RttSample)
        requires
            old(self).well_formed(),
            latest <= MAX_DURATION_NANOS,
        ensures
            final(self).well_formed(),
            (*final(self), sample) == spec_observe(*old(self), latest),
    {
        let previous_smoothed = match self.smoothed {
            Some(smoothed) => smoothed,
            None => latest,
        };
        let smoothed = match self.smoothed {
            Some(previous) => duration_ewma(previous, latest),
            None => latest,
        };
        let deviation = if previous_smoothed >= latest {
            previous_smoothed - latest
        } else {
            latest - previous_smoothed
        };
        let variance = match self.variance {
            Some(previous) => duration_ewma(previous, deviation),
            None => deviation,
        };
        let minimum = match self.minimum {
            Some(minimum) => if latest < minimum {
                latest
            } else {
                minimum
            },
            None => latest,
        };
        self.smoothed = Some(smoothed);
        self.minimum = Some(minimum);
        self.variance = Some(variance);
        H2RttSample { latest, smoothed, minimum, variance }
    }

    /// The timeout for the next PING.
    pub fn timeout(&self) -> (timeout: u128)
        requires
            self.well_formed(),
        ensures
            timeout == spec_ping_timeout(self.smoothed),
    {
        match self.smoothed {
            None => H2_PING_DEFAULT_TIMEOUT_NANOS,
            Some(smoothed) => {
                let tripled = smoothed * 3;
                if tripled < H2_PING_MIN_TIMEOUT_NANOS {
                    H2_PING_MIN_TIMEOUT_NANOS
                } else if tripled > H2_PING_MAX_TIMEOUT_NANOS {
                    H2_PING_MAX_TIMEOUT_NANOS
                } else {
                    tripled
                }
            },
        }
    }
}

/// Law: the adaptive PING timeout is always between 2 s and 10 s.
pub proof fn lemma_ping_timeout_is_bounded(smoothed: Option<u128>)
    ensures
        H2_PING_MIN_TIMEOUT_NANOS <= spec_ping_timeout(smoothed) <= H2_PING_MAX_TIMEOUT_NANOS,
{
}

/// Law: after an observation the minimum is the least round trip seen, and
/// the smoothed round trip lies between the previous estimate and the new
/// measurement.
pub proof fn lemma_observe_tracks_minimum_and_average(state: H2RttEstimator, latest: u128)
    requires
        state.well_formed(),
        latest <= MAX_DURATION_NANOS,
    ensures
        ({
            let (next, sample) = spec_observe(state, latest);
            &&& sample.minimum <= latest
            &&& (state.minimum matches Some(minimum) ==> sample.minimum <= minimum)
            &&& (sample.minimum == latest || state.minimum == Some(sample.minimum))
            &&& (state.smoothed matches Some(previous) ==> {
                ||| previous <= sample.smoothed <= latest
                ||| latest <= sample.smoothed <= previous
            })
            &&& (state.smoothed is None ==> sample.smoothed == latest)
            &&& next.well_formed()
        }),
{
}

/// The error of a failed TLS handshake: when the endpoint's key was checked
/// against the enrolled pin and did not match, the pin mismatch; otherwise
/// a TLS handshake error with the handshake's message.
pub fn tls_handshake_error(pin_checked: bool, pin_matched: bool, message: String) -> (error: TransportError)
    ensures
        pin_checked && !pin_matched ==> error == TransportError::EndpointPinMismatch,
        !(pin_checked && !pin_matched) ==> error == TransportError::TlsHandshake(message),
{
    if pin_checked && !pin_matched {
        TransportError::EndpointPinMismatch
    } else {
        TransportError::TlsHandshake(message)
    }
}

/// The ALPN the endpoint selected is acceptable: `h2`, or none at all, as
/// endpoints that accept the HTTP/2 preface without echoing ALPN do.
pub fn alpn_acceptable(selected: Option<&[u8]>) -> (acceptable: bool)
    ensures
        acceptable == match selected {
            None => true,
            Some(protocol) => protocol@ == seq![0x68u8, 0x32u8],
        },
{
    match selected {
        None => true,
        Some(protocol) => {
            let matches = protocol.len() == 2 && protocol[0] == 0x68u8 && protocol[1] == 0x32u8;
            if matches {
                assert(protocol@ =~= seq![0x68u8, 0x32u8]);
            }
            matches
        },
    }
}

/// The CONNECT-IP response over HTTP/2 opens the tunnel only with status
/// 200; any other status is a rejection carrying it.
pub fn h2_connect_status(status: http::StatusCode) -> (result: Result<(), TransportError>)
    ensures
        status_code_value(status) == 200 ==> result is Ok,
        status_code_value(status) != 200 ==> (result matches Err(TransportError::ConnectRejected(rejected))
            && rejected == status),
{
    if status_code_as_u16(&status) == 200 {
        Ok(())
    } else {
        Err(TransportError::ConnectRejected(status))
    }
}

/// The generation the platform reports, an unknown one counting as zero.
pub open spec fn reported_generation(current: Option<u64>) -> u64 {
    match current {
        Some(generation) => generation,
        None => 0,
    }
}

/// Connection setup may go on only while the platform still reports the
/// network generation that setup began on.
pub fn setup_generation_check(expected: u64, current: Option<u64>) -> (result: Result<(), TransportError>)
    ensures
        reported_generation(current) == expected ==> result is Ok,
        reported_generation(current) != expected ==> (result matches Err(
            TransportError::UnderlyingNetworkChanged,
        )),
{
    let reported = match current {
        Some(generation) => generation,
        None => 0,
    };
    if reported != expected {
        Err(TransportError::UnderlyingNetworkChanged)
    } else {
        Ok(())
    }
}

/// After the socket was protected: the platform must still report the
/// generation setup began on, and the egress lease must belong to it.
pub fn protected_socket_check(expected: u64, current: Option<u64>, lease: Option<u64>) -> (result: Result<
    (),
    TransportError,
>)
    ensures
        reported_generation(current) == expected && lease == Some(expected) ==> result is Ok,
        !(reported_generation(current) == expected && lease == Some(expected)) ==> (result matches Err(
            TransportError::UnderlyingNetworkChanged,
        )),
{
    let lease_current = match lease {
        Some(generation) => generation == expected,
        None => false,
    };
    if setup_generation_check(expected, current).is_err() || !lease_current {
        Err(TransportError::UnderlyingNetworkChanged)
    } else {
        Ok(())
    }
}

/// The error of a refused socket protection: a refusal because the
/// generation went stale means the network changed; any other refusal is a
/// socket protection error with the platform's message.
pub fn protection_error(stale_generation: bool, message: String) -> (error: TransportError)
    ensures
        stale_generation ==> error == TransportError::UnderlyingNetworkChanged,
        !stale_generation ==> error == TransportError::SocketProtection(message),
{
    if stale_generation {
        TransportError::UnderlyingNetworkChanged
    } else {
        TransportError::SocketProtection(message)
    }
}

} // verus!

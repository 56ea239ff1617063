//! Internal build decisions, never deserialized from profiles, IPC or
//! environment variables. Live instances are immutable copies.

use vstd::prelude::*;

verus! {

#[derive(Debug, Clone, Copy, PartialEq, Eq)]
pub struct NetworkFeatureFlags {
    pub h2_tuned_flow_control: bool,
    pub network_quality_metrics: bool,
    pub udp_batch_io: bool,
    pub automatic_pmtu: bool,
    pub quic_migration: bool,
}

/// The production defaults: every tuned behaviour is switched on.
pub open spec fn spec_production_network_features() -> NetworkFeatureFlags {
    NetworkFeatureFlags {
        h2_tuned_flow_control: true,
        network_quality_metrics: true,
        udp_batch_io: true,
        automatic_pmtu: true,
        quic_migration: true,
    }
}

/// The production defaults: every tuned behaviour is switched on.
#[verifier::when_used_as_spec(spec_production_network_features)]
pub fn production_network_features() -> (flags: NetworkFeatureFlags)
    ensures
        flags == spec_production_network_features(),
{
    NetworkFeatureFlags {
        h2_tuned_flow_control: true,
        network_quality_metrics: true,
        udp_batch_io: true,
        automatic_pmtu: true,
        quic_migration: true,
    }
}

/// Emergency capability rollback; `false` rejects saved encrypted configurations.
pub const ENCRYPTED_DIRECT_DNS_ENABLED: bool = true;

impl Default for NetworkFeatureFlags {
    fn default() -> (flags: Self)
        ensures
            flags == spec_production_network_features(),
    {
        production_network_features()
    }
}

} // verus!

use usque_transport::datagram_pool::{
    recycle_keeps, DatagramEncodePool, HTTP_DATAGRAM_BUFFER_CAPACITY, HTTP_DATAGRAM_ENCODE_POOL_BYTE_BUDGET,
    HTTP_DATAGRAM_ENCODE_POOL_LIMIT,
};
use usque_transport::geo_route::{
    after_direct_failure, direct_addresses, valid_host, DirectConnectFailure, DirectFallback, GeoDirectClassifier,
    GeoDirectPolicy, GeoRoute, GeoTarget, MAX_DIRECT_ADDRESSES,
};
use usque_transport::net::{IpAddress, SocketAddress};

#[test]
fn pool_limit_is_hard_and_recovery_is_nonblocking() {
    assert_eq!(HTTP_DATAGRAM_ENCODE_POOL_BYTE_BUDGET, 256 * 1024);
    let mut pool = DatagramEncodePool::new();
    let buffers: Vec<_> = (0..HTTP_DATAGRAM_ENCODE_POOL_LIMIT).map(|_| pool.take().unwrap()).collect();
    assert_eq!(pool.allocated(), HTTP_DATAGRAM_ENCODE_POOL_LIMIT);
    assert!(pool.take().is_none());
    for buffer in buffers {
        pool.recycle(buffer);
    }
    assert_eq!(pool.free_count(), HTTP_DATAGRAM_ENCODE_POOL_LIMIT);
    assert!(pool.take().is_some());
}

#[test]
fn pool_reuses_returned_buffers_emptied() {
    let mut pool = DatagramEncodePool::new();
    let mut buffer = pool.take().unwrap();
    buffer.extend_from_slice(b"packet");
    pool.recycle(buffer);
    assert_eq!(pool.free_count(), 1);
    let reused = pool.take().unwrap();
    assert!(reused.is_empty());
    pool.recycle(reused);
    let counters = pool.counters();
    assert_eq!(counters.misses, 1);
    assert_eq!(counters.hits, 1);
    assert_eq!(counters.reuses, 1);
    assert_eq!(counters.fresh_allocations, 1);
    assert_eq!(counters.recycles, 2);
}

#[test]
fn oversized_buffers_are_released_not_kept() {
    let mut pool = DatagramEncodePool::new();
    let mut buffer = pool.take().unwrap();
    buffer.extend_from_slice(&[7_u8; 4_096]);
    pool.recycle(buffer);
    assert_eq!(pool.free_count(), 0);
    assert_eq!(pool.allocated(), 0);
}

#[test]
fn recycle_keeps_buffers_up_to_the_capacity_while_the_pool_has_room() {
    assert!(recycle_keeps(HTTP_DATAGRAM_BUFFER_CAPACITY, 0));
    assert!(recycle_keeps(0, HTTP_DATAGRAM_ENCODE_POOL_LIMIT - 1));
    assert!(!recycle_keeps(HTTP_DATAGRAM_BUFFER_CAPACITY + 1, 0));
    assert!(!recycle_keeps(HTTP_DATAGRAM_BUFFER_CAPACITY, HTTP_DATAGRAM_ENCODE_POOL_LIMIT));
}

#[test]
fn recycling_with_a_known_capacity_keeps_or_releases_exactly() {
    let mut pool = DatagramEncodePool::new();
    let first = pool.take().unwrap();
    let second = pool.take().unwrap();
    pool.recycle_with_capacity(first, HTTP_DATAGRAM_BUFFER_CAPACITY);
    assert_eq!(pool.free_count(), 1);
    assert_eq!(pool.allocated(), 2);
    assert_eq!(pool.counters().recycles, 1);
    pool.recycle_with_capacity(second, HTTP_DATAGRAM_BUFFER_CAPACITY + 1);
    assert_eq!(pool.free_count(), 1);
    assert_eq!(pool.allocated(), 1);
    assert_eq!(pool.counters().recycles, 1);
}

struct CountryList;

impl GeoDirectClassifier for CountryList {
    fn spec_host_matches(&self, _host: vstd::seq::Seq<char>, _country: vstd::seq::Seq<char>) -> bool {
        unreachable!("specification items are never run")
    }

    fn spec_ip_matches(&self, _ip: IpAddress, _country: vstd::seq::Seq<char>) -> bool {
        unreachable!("specification items are never run")
    }

    fn host_matches(&self, host: &str, country: &str) -> bool {
        country == "jp" && host.ends_with(".jp")
    }

    fn ip_matches(&self, ip: IpAddress, country: &str) -> bool {
        country == "jp" && ip == IpAddress::V4(0x0102_0304)
    }
}

#[test]
fn classifier_routes_hosts_via_geosite_ips_via_geoip_and_unknowns_to_tunnel() {
    let policy = GeoDirectPolicy::with_classifier(CountryList, vec!["jp".to_owned()]);
    assert!(policy.is_enabled());
    assert_eq!(policy.route_host(" example.jp"), GeoRoute::Direct);
    assert_eq!(policy.route_host("."), GeoRoute::Tunnel);
    assert_eq!(policy.route_host("example.com"), GeoRoute::Tunnel);
    assert_eq!(policy.route_host("bad host.jp"), GeoRoute::Tunnel);
    assert_eq!(policy.route_ip(IpAddress::V4(0x0102_0304)), GeoRoute::Direct);
    assert_eq!(policy.route_ip(IpAddress::V4(0x0102_0305)), GeoRoute::Tunnel);
    let disabled: GeoDirectPolicy<CountryList> = GeoDirectPolicy::disabled();
    assert!(!disabled.is_enabled());
    assert_eq!(disabled.route_host("example.jp"), GeoRoute::Tunnel);
    let empty = GeoDirectPolicy::with_classifier(CountryList, Vec::new());
    assert_eq!(empty.route_ip(IpAddress::V4(0x0102_0304)), GeoRoute::Tunnel);
    assert!(empty.countries().is_empty());
}

#[test]
fn hostnames_are_trimmed_and_bounded() {
    assert!(valid_host(" example.com.. "));
    assert!(!valid_host("   "));
    assert!(!valid_host("..."));
    assert!(!valid_host("a/b"));
    assert!(!valid_host("a\u{3000}b"));
    assert!(valid_host(&"a".repeat(253)));
    assert!(!valid_host(&"a".repeat(254)));
    assert!(!valid_host(&"\u{e9}".repeat(127)));
}

#[test]
fn geo_targets_route_hosts_by_geosite_and_literals_by_geoip() {
    let policy = GeoDirectPolicy::with_classifier(CountryList, vec!["jp".to_owned()]);
    assert_eq!(GeoTarget::Host("www.example.jp".to_owned()).route(&policy), GeoRoute::Direct);
    assert_eq!(GeoTarget::Host("www.example.com".to_owned()).route(&policy), GeoRoute::Tunnel);
    assert_eq!(GeoTarget::Ip(IpAddress::V4(0x0102_0304)).route(&policy), GeoRoute::Direct);
    assert_eq!(GeoTarget::Ip(IpAddress::V4(0x0102_0305)).route(&policy), GeoRoute::Tunnel);
    let disabled: GeoDirectPolicy<CountryList> = GeoDirectPolicy::disabled();
    assert_eq!(GeoTarget::Host("www.example.jp".to_owned()).route(&disabled), GeoRoute::Tunnel);
}

#[test]
fn direct_connects_skip_unspecified_and_multicast_addresses_within_the_bound() {
    let unicast = SocketAddress::new(IpAddress::V4(0x0102_0304), 443);
    let resolved = [
        SocketAddress::new(IpAddress::V4(0), 443),
        unicast,
        SocketAddress::new(IpAddress::V4(0xe000_00fb), 443),
        SocketAddress::new(IpAddress::V6(0), 443),
        SocketAddress::new(IpAddress::V6(0xff02_u128 << 112), 443),
        SocketAddress::new(IpAddress::V6(1), 443),
    ];
    assert_eq!(direct_addresses(&resolved), vec![unicast, SocketAddress::new(IpAddress::V6(1), 443)]);

    let many: Vec<SocketAddress> =
        (0..20_u32).map(|index| SocketAddress::new(IpAddress::V4(0x0a00_0001 + index), 80)).collect();
    let tried = direct_addresses(&many);
    assert_eq!(tried.len(), MAX_DIRECT_ADDRESSES);
    assert_eq!(tried, many[..MAX_DIRECT_ADDRESSES].to_vec());
}

#[test]
fn failed_direct_connects_fall_back_without_leaking_names() {
    let addresses = vec![IpAddress::V4(0x0102_0304)];
    assert_eq!(after_direct_failure(DirectConnectFailure::Dns, true), DirectFallback::EncryptedDnsFailed);
    assert_eq!(after_direct_failure(DirectConnectFailure::Dns, false), DirectFallback::Tunnel(None));
    assert_eq!(
        after_direct_failure(DirectConnectFailure::Connect(addresses.clone()), true),
        DirectFallback::Tunnel(Some(addresses.clone()))
    );
    assert_eq!(after_direct_failure(DirectConnectFailure::Connect(addresses), false), DirectFallback::Tunnel(None));
}

#[test]
fn pool_reuses_success_error_and_drop_paths() {
    let mut pool = DatagramEncodePool::new();
    let (buffer, allocation) = {
        let mut buffer = pool.take().unwrap();
        buffer.extend_from_slice(b"packet");
        let allocation = buffer.as_ptr();
        (buffer, allocation)
    };
    pool.recycle(buffer);
    assert_eq!(pool.free_count(), 1);

    let reused = pool.take().unwrap();
    assert_eq!(reused.as_ptr(), allocation);
    assert!(reused.is_empty());
    pool.recycle(reused);

    let counters = pool.counters();
    assert_eq!(counters.misses, 1);
    assert_eq!(counters.hits, 1);
    assert_eq!(counters.reuses, 1);
    assert_eq!(counters.fresh_allocations, 1);
    assert_eq!(counters.recycles, 2);
}

use usque_transport::direct_dns::{
    admit_query, after_failed_attempt, check_doh_response, QueryFailure, bootstrap_candidates, ensure_current, RetryDecision, MAX_DNS_MESSAGE, parse_content_length, remember_bootstrap, validate_doh_headers, DirectDnsError,
    DirectDnsReasonCode, DohResponseHeaders,
};
use usque_transport::dns_resolution::{deduplicate, finish_resolution, merge_query_results, MAX_RESULTS};
use usque_transport::doh_media_type::{is_http_token, skip_ows, valid_dns_media_type};
use usque_transport::net::{IpAddress, SocketAddress};
use usque_transport::TransportError;

const V4_A: IpAddress = IpAddress::V4(0x7f00_0002);
const V4_B: IpAddress = IpAddress::V4(0x7f00_0003);
const V6_A: IpAddress = IpAddress::V6(2);
const V6_B: IpAddress = IpAddress::V6(3);

#[test]
fn media_type_parser_accepts_only_complete_legal_dns_media_types() {
    for value in [
        "application/dns-message",
        " Application/DNS-Message\t",
        "application/dns-message; charset=binary",
        "application/dns-message; a=\"quoted; value\"; b=\"escaped\\\"quote\"",
    ] {
        assert!(valid_dns_media_type(value.as_bytes()), "{value}");
    }
    for value in [
        "application/dns-messageevil",
        "text/plain; x=application/dns-message",
        "application/dns-message, text/plain",
        "application/dns-message;",
        "application/dns-message; x=",
        "application/dns-message; x=\"unterminated",
        "application/dns-message\r\nX: value",
        "application/dns-message; x=y garbage",
    ] {
        assert!(!valid_dns_media_type(value.as_bytes()), "{value:?}");
    }
}

#[test]
fn media_type_refuses_long_and_non_ascii_values() {
    let mut long = b"application/dns-message; a=".to_vec();
    long.extend(std::iter::repeat(b'b').take(1_100));
    assert!(!valid_dns_media_type(&long));
    assert!(!valid_dns_media_type("application/dns-message; a=\u{e9}".as_bytes()));
    assert!(is_http_token(b'~'));
    assert!(!is_http_token(b'"'));
    let mut cursor = 0;
    skip_ows(b" \t x", &mut cursor);
    assert_eq!(cursor, 3);
}

#[test]
fn direct_dns_errors_have_stable_codes_and_retry_policy() {
    assert_eq!(DirectDnsError::Timeout.quality_reason(), DirectDnsReasonCode::Timeout);
    assert_eq!(DirectDnsError::TlsFailed.quality_reason(), DirectDnsReasonCode::QueryFailed);
    assert_eq!(DirectDnsError::Unsupported.quality_reason(), DirectDnsReasonCode::Unsupported);
    assert!(DirectDnsError::ConnectFailed.permits_retry());
    assert!(!DirectDnsError::Busy.permits_retry());
    assert!(!DirectDnsError::NetworkChanged.permits_retry());
    assert_eq!(DirectDnsError::InvalidContentType.as_str(), "invalid_content_type");
}

#[test]
fn bootstrap_prefers_ipv6_and_alternates_families() {
    let ips = [V4_A, V4_B, V6_A, V6_B];
    let usable = [true; 4];
    let candidates = bootstrap_candidates(&ips, &usable, 443, &[], None);
    assert_eq!(candidates, vec![SocketAddress::new(V6_A, 443), SocketAddress::new(V4_A, 443)]);
    let without_v6 = bootstrap_candidates(&ips, &[true, true, false, false], 443, &[], None);
    assert_eq!(without_v6, vec![SocketAddress::new(V4_A, 443), SocketAddress::new(V4_B, 443)]);
    let excluded = bootstrap_candidates(&ips, &usable, 443, &[], Some(V6_A));
    assert_eq!(excluded, vec![SocketAddress::new(V6_B, 443), SocketAddress::new(V4_A, 443)]);
}

#[test]
fn a_request_retry_changes_bootstrap_once_and_never_uses_a_third() {
    let ips = [V4_A, V4_B, V6_A];
    let usable = [true; 3];
    let mut visited = Vec::new();
    remember_bootstrap(&mut visited, V4_A);
    remember_bootstrap(&mut visited, V4_A);
    assert_eq!(visited, vec![V4_A]);
    let retry = bootstrap_candidates(&ips, &usable, 853, &visited, Some(V4_A));
    assert_eq!(retry, vec![SocketAddress::new(V6_A, 853)]);
    remember_bootstrap(&mut visited, V6_A);
    let third = bootstrap_candidates(&ips, &usable, 853, &visited, Some(V6_A));
    assert_eq!(third, vec![SocketAddress::new(V4_A, 853)]);
}

#[test]
fn doh_headers_are_checked_before_the_body() {
    let good = DohResponseHeaders {
        content_types: vec![b"application/dns-message".to_vec()],
        has_content_encoding: false,
        content_lengths: vec![b"512".to_vec()],
    };
    assert_eq!(validate_doh_headers(&good), Ok(()));
    let missing = DohResponseHeaders { content_types: vec![], has_content_encoding: false, content_lengths: vec![] };
    assert_eq!(validate_doh_headers(&missing), Err(DirectDnsError::InvalidContentType));
    let encoded = DohResponseHeaders { has_content_encoding: true, ..good_headers() };
    assert_eq!(validate_doh_headers(&encoded), Err(DirectDnsError::InvalidResponse));
    let large = DohResponseHeaders { content_lengths: vec![b"65536".to_vec()], ..good_headers() };
    assert_eq!(validate_doh_headers(&large), Err(DirectDnsError::ResponseTooLarge));
    let garbled = DohResponseHeaders { content_lengths: vec![b"12x".to_vec()], ..good_headers() };
    assert_eq!(validate_doh_headers(&garbled), Err(DirectDnsError::InvalidResponse));
}

fn good_headers() -> DohResponseHeaders {
    DohResponseHeaders {
        content_types: vec![b"application/dns-message".to_vec()],
        has_content_encoding: false,
        content_lengths: vec![],
    }
}

#[test]
fn content_length_reads_like_usize_parse() {
    assert_eq!(parse_content_length(b"0"), Some(0));
    assert_eq!(parse_content_length(b"+42"), Some(42));
    assert_eq!(parse_content_length(b""), None);
    assert_eq!(parse_content_length(b"+"), None);
    assert_eq!(parse_content_length(b"-1"), None);
    assert_eq!(parse_content_length(b"99999999999999999999999999"), None);
    assert_eq!(parse_content_length(b"18446744073709551615"), Some(usize::MAX));
}

#[test]
fn resolution_deduplicates_and_bounds_the_answer() {
    let mut addresses = vec![V4_A, V6_A, V4_A, V4_B, V6_A];
    deduplicate(&mut addresses);
    assert_eq!(addresses, vec![V4_A, V6_A, V4_B]);
    let many: Vec<IpAddress> = (0..40u32).map(IpAddress::V4).collect();
    assert_eq!(finish_resolution(many).unwrap().len(), MAX_RESULTS);
    assert!(matches!(finish_resolution(Vec::new()), Err(TransportError::Dns(_))));
}

#[test]
fn query_results_merge_a_before_aaaa_and_join_failures() {
    assert_eq!(merge_query_results(Ok(vec![V4_A]), Ok(vec![V6_A])).unwrap(), vec![V4_A, V6_A]);
    assert_eq!(merge_query_results(Err("v4 down".to_owned()), Ok(vec![V6_A])).unwrap(), vec![V6_A]);
    match merge_query_results(Err("v4 down".to_owned()), Err("v6 down".to_owned())) {
        Err(TransportError::Dns(message)) => assert_eq!(message, "v4 down; v6 down"),
        other => panic!("unexpected {other:?}"),
    }
}

#[test]
fn only_a_retryable_first_failure_with_another_candidate_is_retried() {
    let ips = [V4_A, V4_B];
    let usable = [true, true];
    let failed = Some(SocketAddress::new(V4_A, 853));
    let visited = [V4_A];

    assert_eq!(
        after_failed_attempt(0, DirectDnsError::ConnectFailed, failed, &ips, &usable, 853, &visited),
        RetryDecision::RetryExcluding(V4_A)
    );
    assert_eq!(
        after_failed_attempt(1, DirectDnsError::ConnectFailed, failed, &ips, &usable, 853, &visited),
        RetryDecision::Fail(DirectDnsError::ConnectFailed)
    );
    assert_eq!(
        after_failed_attempt(0, DirectDnsError::Timeout, failed, &ips, &usable, 853, &visited),
        RetryDecision::Fail(DirectDnsError::Timeout)
    );
    assert_eq!(
        after_failed_attempt(0, DirectDnsError::TlsFailed, None, &ips, &usable, 853, &visited),
        RetryDecision::Fail(DirectDnsError::TlsFailed)
    );
    assert_eq!(
        after_failed_attempt(0, DirectDnsError::TlsFailed, failed, &[V4_A], &[true], 853, &visited),
        RetryDecision::Fail(DirectDnsError::TlsFailed)
    );
    assert_eq!(
        after_failed_attempt(0, DirectDnsError::TlsFailed, failed, &ips, &[true, false], 853, &visited),
        RetryDecision::Fail(DirectDnsError::TlsFailed)
    );
}

#[test]
fn queries_outside_the_dns_bounds_are_invalid_and_a_full_resolver_is_busy() {
    assert_eq!(admit_query(11, true), Err(DirectDnsError::InvalidQuery));
    assert_eq!(admit_query(MAX_DNS_MESSAGE + 1, true), Err(DirectDnsError::InvalidQuery));
    assert_eq!(admit_query(MAX_DNS_MESSAGE + 1, false), Err(DirectDnsError::InvalidQuery));
    assert_eq!(admit_query(12, false), Err(DirectDnsError::Busy));
    assert_eq!(admit_query(12, true), Ok(()));
    assert_eq!(admit_query(MAX_DNS_MESSAGE, true), Ok(()));
}

#[test]
fn shutdown_and_network_changes_stop_queries() {
    assert_eq!(ensure_current(true, 4, 5), Err(DirectDnsError::Cancelled));
    assert_eq!(ensure_current(false, 4, 5), Err(DirectDnsError::NetworkChanged));
    assert_eq!(ensure_current(false, 5, 5), Ok(()));
}

#[test]
fn doh_answers_need_status_200_before_their_headers_are_checked() {
    let good = DohResponseHeaders {
        content_types: vec![b"application/dns-message".to_vec()],
        has_content_encoding: false,
        content_lengths: vec![b"29".to_vec()],
    };
    let encoded = DohResponseHeaders {
        content_types: vec![b"application/dns-message".to_vec()],
        has_content_encoding: true,
        content_lengths: vec![b"29".to_vec()],
    };
    assert_eq!(check_doh_response(http::StatusCode::OK, &good), Ok(()));
    assert_eq!(check_doh_response(http::StatusCode::FOUND, &good), Err(DirectDnsError::HttpRejected));
    assert_eq!(check_doh_response(http::StatusCode::OK, &encoded), Err(DirectDnsError::InvalidResponse));
    assert_eq!(check_doh_response(http::StatusCode::BAD_GATEWAY, &encoded), Err(DirectDnsError::HttpRejected));

    let endpoint = SocketAddress::new(V4_A, 443);
    let failure = QueryFailure::on_endpoint(DirectDnsError::TlsFailed, endpoint);
    assert_eq!(failure.endpoint, Some(endpoint));
    assert_eq!(QueryFailure::before_endpoint(DirectDnsError::Busy).endpoint, None);
}

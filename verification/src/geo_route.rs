//! GEO split routing: which destinations may bypass the tunnel. A hostname
//! is judged by GeoSite data only and an IP literal by GeoIP data only;
//! a missing classifier, an empty country list, a malformed hostname and
//! every non-match route through the tunnel.

use vstd::prelude::*;

use crate::net::{spec_is_multicast, spec_is_unspecified, IpAddress, SocketAddress};

verus! {

/// The route chosen for one destination. `Tunnel` is the default: absent,
/// incomplete or non-matching GEO data never bypasses the tunnel.
#[derive(Clone, Copy, Debug, PartialEq, Eq, Structural)]
pub enum GeoRoute {
    Tunnel,
    Direct,
}

/// Read-only GEO matching, implemented by the embedder's classifier.
/// Matchers answer `false` for malformed or unknown data. An implementation
/// answers as its spec functions say, the same for the same arguments;
/// Verus checks that only of implementations it verifies.
pub trait GeoDirectClassifier {
    /// Whether the classifier's GeoSite data puts `host` in `country`.
    spec fn spec_host_matches(&self, host: Seq<char>, country: Seq<char>) -> bool;

    /// Whether the classifier's GeoIP data puts `ip` in `country`.
    spec fn spec_ip_matches(&self, ip: IpAddress, country: Seq<char>) -> bool;

    fn host_matches(&self, host: &str, country: &str) -> (matches: bool)
        ensures
            matches == self.spec_host_matches(host@, country@),
    ;

    fn ip_matches(&self, ip: IpAddress, country: &str) -> (matches: bool)
        ensures
            matches == self.spec_ip_matches(ip, country@),
    ;
}

/// Unicode `White_Space`, the characters `char::is_whitespace` accepts.
pub open spec fn is_unicode_whitespace(c: char) -> bool {
    let code = c as u32;
    ||| 0x09 <= code <= 0x0d
    ||| code == 0x20 || code == 0x85 || code == 0xa0 || code == 0x1680
    ||| 0x2000 <= code <= 0x200a
    ||| code == 0x2028 || code == 0x2029 || code == 0x202f || code == 0x205f || code == 0x3000
}

fn is_whitespace_char(c: char) -> (whitespace: bool)
    ensures
        whitespace == is_unicode_whitespace(c),
{
    let code = c as u32;
    (0x09 <= code && code <= 0x0d) || code == 0x20 || code == 0x85 || code == 0xa0 || code
        == 0x1680 || (0x2000 <= code && code <= 0x200a) || code == 0x2028 || code == 0x2029 || code
        == 0x202f || code == 0x205f || code == 0x3000
}

/// The UTF-8 length of a character.
pub open spec fn utf8_len(c: char) -> nat {
    let code = c as u32;
    if code < 0x80 {
        1
    } else if code < 0x800 {
        2
    } else if code < 0x10000 {
        3
    } else {
        4
    }
}

/// The UTF-8 length of `chars[start..end]`.
pub open spec fn utf8_len_of(chars: Seq<char>, start: int, end: int) -> nat
    decreases end - start,
{
    if end <= start {
        0
    } else {
        utf8_len_of(chars, start, end - 1) + utf8_len(chars[end - 1])
    }
}

/// The index of the first character that is not whitespace, or the length.
pub open spec fn trim_start_index(chars: Seq<char>, from: int) -> int
    decreases chars.len() - from,
{
    if from >= chars.len() || from < 0 {
        from
    } else if is_unicode_whitespace(chars[from]) {
        trim_start_index(chars, from + 1)
    } else {
        from
    }
}

/// The end of `chars[start..end]` once trailing characters satisfying
/// `strip` are removed.
pub open spec fn trim_end_index(chars: Seq<char>, start: int, end: int, dots: bool) -> int
    decreases end - start,
{
    if end <= start {
        end
    } else if (if dots {
        chars[end - 1] == '.'
    } else {
        is_unicode_whitespace(chars[end - 1])
    }) {
        trim_end_index(chars, start, end - 1, dots)
    } else {
        end
    }
}

/// A hostname GeoSite may judge: after trimming whitespace and trailing
/// dots it is non-empty, at most 253 bytes, and holds no `/` and no
/// whitespace.
pub open spec fn spec_valid_host(host: Seq<char>) -> bool {
    let start = trim_start_index(host, 0);
    let end = trim_end_index(host, start, trim_end_index(host, start, host.len() as int, false), true);
    &&& start < end
    &&& utf8_len_of(host, start, end) <= 253
    &&& forall|i: int| start <= i < end ==> #[trigger] host[i] != '/' && !is_unicode_whitespace(host[i])
}

proof fn lemma_trim_start_bounds(chars: Seq<char>, from: int)
    requires
        0 <= from <= chars.len(),
    ensures
        from <= trim_start_index(chars, from) <= chars.len(),
    decreases chars.len() - from,
{
    if from < chars.len() && is_unicode_whitespace(chars[from]) {
        lemma_trim_start_bounds(chars, from + 1);
    }
}

proof fn lemma_trim_end_bounds(chars: Seq<char>, start: int, end: int, dots: bool)
    requires
        start <= end,
    ensures
        start <= trim_end_index(chars, start, end, dots) <= end,
    decreases end - start,
{
    if end > start && (if dots {
        chars[end - 1] == '.'
    } else {
        is_unicode_whitespace(chars[end - 1])
    }) {
        lemma_trim_end_bounds(chars, start, end - 1, dots);
    }
}

/// Whether GeoSite may judge `host`.
pub fn valid_host(host: &str) -> (valid: bool)
    ensures
        valid == spec_valid_host(host@),
{
    let length = host.unicode_len();
    let mut start: usize = 0;
    while start < length && is_whitespace_char(host.get_char(start))
        invariant
            start <= length,
            length == host@.len(),
            trim_start_index(host@, start as int) == trim_start_index(host@, 0),
        decreases length - start,
    {
        start = start + 1;
    }
    let mut end: usize = length;
    while end > start && is_whitespace_char(host.get_char(end - 1))
        invariant
            start <= end <= length,
            length == host@.len(),
            trim_end_index(host@, start as int, end as int, false) == trim_end_index(
                host@,
                start as int,
                length as int,
                false,
            ),
        decreases end - start,
    {
        end = end - 1;
    }
    let ghost spaces_end = end;
    assert(start as int == trim_start_index(host@, 0));
    assert(spaces_end as int == trim_end_index(host@, start as int, host@.len() as int, false));
    while end > start && host.get_char(end - 1) == '.'
        invariant
            start <= end <= spaces_end,
            spaces_end <= length,
            length == host@.len(),
            trim_end_index(host@, start as int, end as int, true) == trim_end_index(
                host@,
                start as int,
                spaces_end as int,
                true,
            ),
        decreases end - start,
    {
        end = end - 1;
    }
    assert(end as int == trim_end_index(host@, start as int, spaces_end as int, true));
    if start >= end {
        return false;
    }
    let mut bytes: usize = 0;
    let mut index: usize = start;
    while index < end
        invariant
            start <= index <= end,
            start as int == trim_start_index(host@, 0),
            end as int == trim_end_index(
                host@,
                start as int,
                trim_end_index(host@, start as int, host@.len() as int, false),
                true,
            ),
            end <= length,
            length == host@.len(),
            bytes == utf8_len_of(host@, start as int, index as int),
            bytes <= 253,
            forall|i: int| start <= i < index ==> #[trigger] host@[i] != '/' && !is_unicode_whitespace(host@[i]),
        decreases end - index,
    {
        let c = host.get_char(index);
        if c == '/' || is_whitespace_char(c) {
            return false;
        }
        let code = c as u32;
        let width: usize = if code < 0x80 {
            1
        } else if code < 0x800 {
            2
        } else if code < 0x10000 {
            3
        } else {
            4
        };
        if bytes + width > 253 {
            proof {
                lemma_utf8_len_grows(host@, start as int, (index + 1) as int, end as int);
            }
            return false;
        }
        bytes = bytes + width;
        index = index + 1;
    }
    true
}

/// The UTF-8 length of a longer range is at least that of its prefix.
proof fn lemma_utf8_len_grows(chars: Seq<char>, start: int, middle: int, end: int)
    requires
        start <= middle <= end,
    ensures
        utf8_len_of(chars, start, middle) <= utf8_len_of(chars, start, end),
    decreases end - middle,
{
    if middle < end {
        lemma_utf8_len_grows(chars, start, middle, end - 1);
    }
}

/// The split-routing policy: a classifier and the countries that route
/// directly. Without either, everything uses the tunnel.
pub struct GeoDirectPolicy<C> {
    classifier: Option<C>,
    countries: Vec<String>,
}

impl<C: GeoDirectClassifier> GeoDirectPolicy<C> {
    pub closed spec fn has_classifier(&self) -> bool {
        self.classifier is Some
    }

    pub closed spec fn country_count(&self) -> nat {
        self.countries@.len()
    }

    /// The classifier, when the policy has one.
    pub closed spec fn classifier_view(&self) -> C {
        self.classifier->0
    }

    /// The route for a hostname: direct exactly when the policy is enabled,
    /// the hostname is valid and some configured country matches it.
    pub open spec fn spec_route_host(&self, host: Seq<char>) -> GeoRoute {
        if self.has_classifier() && self.country_count() > 0 && spec_valid_host(host) && exists|index: int|
            0 <= index < self.country_count() && self.classifier_view().spec_host_matches(
                host,
                #[trigger] self.country_at(index),
            ) {
            GeoRoute::Direct
        } else {
            GeoRoute::Tunnel
        }
    }

    /// The route for an IP literal: direct exactly when the policy is
    /// enabled and some configured country matches it.
    pub open spec fn spec_route_ip(&self, ip: IpAddress) -> GeoRoute {
        if self.has_classifier() && self.country_count() > 0 && exists|index: int|
            0 <= index < self.country_count() && self.classifier_view().spec_ip_matches(
                ip,
                #[trigger] self.country_at(index),
            ) {
            GeoRoute::Direct
        } else {
            GeoRoute::Tunnel
        }
    }

    /// The `index`-th configured country.
    pub closed spec fn country_at(&self, index: int) -> Seq<char> {
        self.countries@[index]@
    }

    /// Law: a hostname goes direct because of any configured country. With a
    /// classifier and a valid hostname, a match for the country at any
    /// position sends the host direct; with no match at any position, or no
    /// classifier, it stays on the tunnel.
    pub proof fn lemma_route_host_by_any_country(&self, host: Seq<char>, index: int)
        ensures
            self.has_classifier() && spec_valid_host(host) && 0 <= index < self.country_count()
                && self.classifier_view().spec_host_matches(host, self.country_at(index))
                ==> self.spec_route_host(host) == GeoRoute::Direct,
            !self.has_classifier() || !spec_valid_host(host) ==> self.spec_route_host(host) == GeoRoute::Tunnel,
            (forall|other: int|
                0 <= other < self.country_count() ==> !self.classifier_view().spec_host_matches(
                    host,
                    #[trigger] self.country_at(other),
                )) ==> self.spec_route_host(host) == GeoRoute::Tunnel,
    {
        if self.has_classifier() && spec_valid_host(host) && 0 <= index < self.country_count()
            && self.classifier_view().spec_host_matches(host, self.country_at(index)) {
            assert(self.classifier_view().spec_host_matches(host, self.country_at(index)));
        }
    }

    /// Law: an IP literal goes direct because of any configured country:
    /// with a classifier, a match for the country at any position sends it
    /// direct; with no match at any position, or no classifier, it stays on
    /// the tunnel.
    pub proof fn lemma_route_ip_by_any_country(&self, ip: IpAddress, index: int)
        ensures
            self.has_classifier() && 0 <= index < self.country_count() && self.classifier_view().spec_ip_matches(
                ip,
                self.country_at(index),
            ) ==> self.spec_route_ip(ip) == GeoRoute::Direct,
            !self.has_classifier() ==> self.spec_route_ip(ip) == GeoRoute::Tunnel,
            (forall|other: int|
                0 <= other < self.country_count() ==> !self.classifier_view().spec_ip_matches(
                    ip,
                    #[trigger] self.country_at(other),
                )) ==> self.spec_route_ip(ip) == GeoRoute::Tunnel,
    {
        if self.has_classifier() && 0 <= index < self.country_count() && self.classifier_view().spec_ip_matches(
            ip,
            self.country_at(index),
        ) {
            assert(self.classifier_view().spec_ip_matches(ip, self.country_at(index)));
        }
    }

    /// Law: the order of the configured countries does not matter. Two
    /// policies with the same classifier whose country lists hold the same
    /// countries, in any order, route every hostname and every IP literal
    /// alike.
    pub proof fn lemma_country_order_is_irrelevant(&self, other: &Self, host: Seq<char>, ip: IpAddress)
        requires
            self.has_classifier() == other.has_classifier(),
            self.classifier_view() == other.classifier_view(),
            forall|i: int|
                0 <= i < self.country_count() ==> exists|j: int|
                    0 <= j < other.country_count() && #[trigger] other.country_at(j) == #[trigger] self.country_at(i),
            forall|j: int|
                0 <= j < other.country_count() ==> exists|i: int|
                    0 <= i < self.country_count() && #[trigger] self.country_at(i) == #[trigger] other.country_at(j),
        ensures
            self.spec_route_host(host) == other.spec_route_host(host),
            self.spec_route_ip(ip) == other.spec_route_ip(ip),
    {
        let classifier = self.classifier_view();
        if self.country_count() > 0 {
            assert(self.country_at(0) == self.country_at(0));
        }
        if other.country_count() > 0 {
            assert(other.country_at(0) == other.country_at(0));
        }
        if exists|i: int| 0 <= i < self.country_count() && classifier.spec_host_matches(host, #[trigger] self.country_at(i)) {
            let i = choose|i: int| 0 <= i < self.country_count() && classifier.spec_host_matches(host, #[trigger] self.country_at(i));
            assert(self.country_at(i) == self.country_at(i));
            let j = choose|j: int| 0 <= j < other.country_count() && #[trigger] other.country_at(j) == self.country_at(i);
            assert(classifier.spec_host_matches(host, other.country_at(j)));
        }
        if exists|j: int| 0 <= j < other.country_count() && classifier.spec_host_matches(host, #[trigger] other.country_at(j)) {
            let j = choose|j: int| 0 <= j < other.country_count() && classifier.spec_host_matches(host, #[trigger] other.country_at(j));
            assert(other.country_at(j) == other.country_at(j));
            let i = choose|i: int| 0 <= i < self.country_count() && #[trigger] self.country_at(i) == other.country_at(j);
            assert(classifier.spec_host_matches(host, self.country_at(i)));
        }
        if exists|i: int| 0 <= i < self.country_count() && classifier.spec_ip_matches(ip, #[trigger] self.country_at(i)) {
            let i = choose|i: int| 0 <= i < self.country_count() && classifier.spec_ip_matches(ip, #[trigger] self.country_at(i));
            assert(self.country_at(i) == self.country_at(i));
            let j = choose|j: int| 0 <= j < other.country_count() && #[trigger] other.country_at(j) == self.country_at(i);
            assert(classifier.spec_ip_matches(ip, other.country_at(j)));
        }
        if exists|j: int| 0 <= j < other.country_count() && classifier.spec_ip_matches(ip, #[trigger] other.country_at(j)) {
            let j = choose|j: int| 0 <= j < other.country_count() && classifier.spec_ip_matches(ip, #[trigger] other.country_at(j));
            assert(other.country_at(j) == other.country_at(j));
            let i = choose|i: int| 0 <= i < self.country_count() && #[trigger] self.country_at(i) == other.country_at(j);
            assert(classifier.spec_ip_matches(ip, self.country_at(i)));
        }
    }

    /// A policy that always uses the tunnel.
    pub fn disabled() -> (policy: Self)
        ensures
            !policy.has_classifier(),
            policy.country_count() == 0,
    {
        GeoDirectPolicy { classifier: None, countries: Vec::new() }
    }

    /// A policy routing the given countries directly through `classifier`.
    pub fn with_classifier(classifier: C, countries: Vec<String>) -> (policy: Self)
        ensures
            policy.has_classifier(),
            policy.classifier_view() == classifier,
            policy.country_count() == countries@.len(),
            forall|index: int| 0 <= index < countries@.len() ==> #[trigger] policy.country_at(index)
                == countries@[index]@,
    {
        GeoDirectPolicy { classifier: Some(classifier), countries }
    }

    /// The configured countries, in the caller's order.
    pub fn countries(&self) -> (countries: &[String])
        ensures
            countries@.len() == self.country_count(),
            forall|index: int| 0 <= index < countries@.len() ==> #[trigger] countries@[index]@ == self.country_at(
                index,
            ),
    {
        self.countries.as_slice()
    }

    /// Whether the policy can select a direct route at all.
    pub fn is_enabled(&self) -> (enabled: bool)
        ensures
            enabled == (self.has_classifier() && self.country_count() > 0),
    {
        self.classifier.is_some() && self.countries.len() > 0
    }

    /// The route for a hostname, by GeoSite only: direct only when the
    /// policy is enabled, the hostname is valid and some country matches.
    pub fn route_host(&self, host: &str) -> (route: GeoRoute)
        ensures
            route == self.spec_route_host(host@),
    {
        let classifier = match &self.classifier {
            Some(classifier) => classifier,
            None => return GeoRoute::Tunnel,
        };
        if self.countries.len() == 0 || !valid_host(host) {
            return GeoRoute::Tunnel;
        }
        let mut index: usize = 0;
        while index < self.countries.len()
            invariant
                self.classifier == Some(*classifier),
                self.countries@.len() > 0,
                spec_valid_host(host@),
                index <= self.countries@.len(),
                forall|earlier: int| 0 <= earlier < index ==> !classifier.spec_host_matches(
                    host@,
                    #[trigger] self.country_at(earlier),
                ),
            decreases self.countries@.len() - index,
        {
            if classifier.host_matches(host, self.countries[index].as_str()) {
                assert(classifier.spec_host_matches(host@, self.country_at(index as int)));
                return GeoRoute::Direct;
            }
            index = index + 1;
        }
        GeoRoute::Tunnel
    }

    /// The route for an IP literal, by GeoIP only: direct only when the
    /// policy is enabled and some country matches.
    pub fn route_ip(&self, ip: IpAddress) -> (route: GeoRoute)
        ensures
            route == self.spec_route_ip(ip),
    {
        let classifier = match &self.classifier {
            Some(classifier) => classifier,
            None => return GeoRoute::Tunnel,
        };
        if self.countries.len() == 0 {
            return GeoRoute::Tunnel;
        }
        let mut index: usize = 0;
        while index < self.countries.len()
            invariant
                self.classifier == Some(*classifier),
                self.countries@.len() > 0,
                index <= self.countries@.len(),
                forall|earlier: int| 0 <= earlier < index ==> !classifier.spec_ip_matches(
                    ip,
                    #[trigger] self.country_at(earlier),
                ),
            decreases self.countries@.len() - index,
        {
            if classifier.ip_matches(ip, self.countries[index].as_str()) {
                assert(classifier.spec_ip_matches(ip, self.country_at(index as int)));
                return GeoRoute::Direct;
            }
            index = index + 1;
        }
        GeoRoute::Tunnel
    }
}

/// A proxy destination: a hostname, or an IP literal.
#[derive(Debug, PartialEq, Eq)]
pub enum GeoTarget {
    Host(String),
    Ip(IpAddress),
}

impl GeoTarget {
    /// The route of the destination: a hostname goes by GeoSite, an IP
    /// literal by GeoIP.
    pub fn route<C: GeoDirectClassifier>(&self, policy: &GeoDirectPolicy<C>) -> (route: GeoRoute)
        ensures
            route == match self {
                GeoTarget::Host(host) => policy.spec_route_host(host@),
                GeoTarget::Ip(ip) => policy.spec_route_ip(*ip),
            },
    {
        match self {
            GeoTarget::Host(host) => policy.route_host(host.as_str()),
            GeoTarget::Ip(ip) => policy.route_ip(*ip),
        }
    }
}

/// The most resolved addresses one direct connect considers.
pub const MAX_DIRECT_ADDRESSES: usize = 16;

/// An address a direct connect may try: neither unspecified nor multicast.
pub open spec fn direct_usable(address: SocketAddress) -> bool {
    !spec_is_unspecified(address.ip) && !spec_is_multicast(address.ip)
}

/// The usable addresses of `addresses`, in order.
pub open spec fn usable_addresses(addresses: Seq<SocketAddress>) -> Seq<SocketAddress>
    decreases addresses.len(),
{
    if addresses.len() == 0 {
        Seq::empty()
    } else {
        let earlier = usable_addresses(addresses.drop_last());
        if direct_usable(addresses.last()) {
            earlier.push(addresses.last())
        } else {
            earlier
        }
    }
}

/// The addresses a direct connect tries, in order: the usable ones among
/// the first `MAX_DIRECT_ADDRESSES` resolved.
pub fn direct_addresses(resolved: &[SocketAddress]) -> (tried: Vec<SocketAddress>)
    ensures
        tried@ == usable_addresses(
            resolved@.take(
                if resolved@.len() < MAX_DIRECT_ADDRESSES {
                    resolved@.len() as int
                } else {
                    MAX_DIRECT_ADDRESSES as int
                },
            ),
        ),
{
    let count = if resolved.len() < MAX_DIRECT_ADDRESSES {
        resolved.len()
    } else {
        MAX_DIRECT_ADDRESSES
    };
    let mut tried: Vec<SocketAddress> = Vec::new();
    let mut index: usize = 0;
    while index < count
        invariant
            index <= count,
            count <= resolved@.len(),
            tried@ == usable_addresses(resolved@.take(index as int)),
        decreases count - index,
    {
        let address = resolved[index];
        assert(resolved@.take(index + 1).drop_last() =~= resolved@.take(index as int));
        if !address.ip.is_unspecified() && !address.ip.is_multicast() {
            tried.push(address);
        }
        index = index + 1;
    }
    tried
}

/// Why a direct connect failed: the name did not resolve, or no resolved
/// address accepted the connection.
#[derive(Debug, PartialEq, Eq)]
pub enum DirectConnectFailure {
    Dns,
    Connect(Vec<IpAddress>),
}

/// What a proxy connection does after its direct connect failed.
#[derive(Debug, PartialEq, Eq)]
pub enum DirectFallback {
    /// The encrypted direct resolver failed: the connection fails rather
    /// than leak the name to the tunnel's resolver.
    EncryptedDnsFailed,
    /// Connect through the tunnel, reusing the addresses that the
    /// encrypted direct resolver returned, if any.
    Tunnel(Option<Vec<IpAddress>>),
}

/// The fallback after a failed direct connect. With an encrypted direct
/// resolver configured, a resolution failure fails the connection and the
/// addresses it resolved are handed to the tunnel; without one, the tunnel
/// resolves the name itself.
pub fn after_direct_failure(failure: DirectConnectFailure, encrypted_dns: bool) -> (fallback: DirectFallback)
    ensures
        match failure {
            DirectConnectFailure::Dns => fallback == if encrypted_dns {
                DirectFallback::EncryptedDnsFailed
            } else {
                DirectFallback::Tunnel(None)
            },
            DirectConnectFailure::Connect(addresses) => if encrypted_dns {
                fallback matches DirectFallback::Tunnel(Some(resolved)) && resolved@ == addresses@
            } else {
                fallback == DirectFallback::Tunnel(None)
            },
        },
{
    match failure {
        DirectConnectFailure::Dns => if encrypted_dns {
            DirectFallback::EncryptedDnsFailed
        } else {
            DirectFallback::Tunnel(None)
        },
        DirectConnectFailure::Connect(addresses) => if encrypted_dns {
            DirectFallback::Tunnel(Some(addresses))
        } else {
            DirectFallback::Tunnel(None)
        },
    }
}

} // verus!

//! Guard of outgoing requests: only `http`/`https` URLs whose target is not a
//! private, loopback, link-local or otherwise internal address.
use vstd::prelude::*;

use crate::text::{chars_of, seq_eq};

verus! {

/// An IP address: four octets, or eight 16-bit segments.
#[derive(Debug, Clone, Copy, PartialEq, Eq, Structural)]
pub enum IpAddress {
    V4(u8, u8, u8, u8),
    V6(u16, u16, u16, u16, u16, u16, u16, u16),
}

/// The host of a parsed URL.
pub enum UrlHost {
    Domain(String),
    V4([u8; 4]),
    V6([u16; 8]),
}

/// What the guard reads of a parsed URL.
pub struct ParsedUrl {
    pub scheme: String,
    /// `Url::host_str`: the host as written in the URL.
    pub host_str: Option<String>,
    pub host: Option<UrlHost>,
    /// `Url::port_or_known_default`.
    pub port: Option<u16>,
}

/// What `url::Url::parse` reads from a text (scheme, host, port), `None`
/// when the text is not a URL.
pub uninterp spec fn parsed_url(url: Seq<char>) -> Option<ParsedUrl>;

/// `url::Url::parse` with `scheme`, `host_str`, `host` and
/// `port_or_known_default`; named by [`parsed_url`].
#[verifier::external_body]
pub(crate) fn parse_url(url: &str) -> (r: Option<ParsedUrl>)
    ensures
        r == parsed_url(url@),
{
    let u = url::Url::parse(url).ok()?;
    let host = u.host().map(|h| match h {
        url::Host::Domain(d) => UrlHost::Domain(d.into()),
        url::Host::Ipv4(a) => UrlHost::V4(a.octets()),
        url::Host::Ipv6(a) => UrlHost::V6(a.segments()),
    });
    Some(ParsedUrl { scheme: u.scheme().into(), host_str: u.host_str().map(String::from), host, port: u.port_or_known_default() })
}

/// `Ipv4Addr::is_private`: 10/8, 172.16/12, 192.168/16.
pub open spec fn v4_private(a: u8, b: u8) -> bool {
    a == 10 || (a == 172 && 16 <= b <= 31) || (a == 192 && b == 168)
}

/// `Ipv4Addr::is_documentation`: 192.0.2/24, 198.51.100/24, 203.0.113/24.
pub open spec fn v4_documentation(a: u8, b: u8, c: u8) -> bool {
    (a == 192 && b == 0 && c == 2) || (a == 198 && b == 51 && c == 100) || (a == 203 && b == 0
        && c == 113)
}

/// Reserved ranges std does not cover: 100.64/10 (shared address space),
/// 192.0.0/24 (protocol assignments), 198.18/15 (benchmarking).
pub open spec fn v4_reserved(a: u8, b: u8, c: u8) -> bool {
    (a == 100 && 64 <= b <= 127) || (a == 192 && b == 0 && c == 0) || (a == 198 && 18 <= b <= 19)
}

/// An internal IPv4 address: private, loopback (127/8), link-local
/// (169.254/16), broadcast, unspecified, documentation or reserved.
pub open spec fn v4_internal(a: u8, b: u8, c: u8, d: u8) -> bool {
    ||| v4_private(a, b)
    ||| a == 127
    ||| (a == 169 && b == 254)
    ||| (a == 255 && b == 255 && c == 255 && d == 255)
    ||| (a == 0 && b == 0 && c == 0 && d == 0)
    ||| v4_documentation(a, b, c)
    ||| v4_reserved(a, b, c)
}

/// An internal IPv6 address: loopback `::1`, unspecified `::`, unique local
/// (fc00::/7), unicast link-local (fe80::/10) or multicast (ff00::/8).
pub open spec fn v6_internal(s: (u16, u16, u16, u16, u16, u16, u16, u16)) -> bool {
    let zero6 = s.0 == 0 && s.1 == 0 && s.2 == 0 && s.3 == 0 && s.4 == 0 && s.5 == 0 && s.6 == 0;
    ||| (zero6 && s.7 == 1)
    ||| (zero6 && s.7 == 0)
    ||| (0xfc00 <= s.0 <= 0xfdff)
    ||| (0xfe80 <= s.0 <= 0xfebf)
    ||| (0xff00 <= s.0)
}

/// The address of four octets.
pub open spec fn v4_of(o: [u8; 4]) -> IpAddress {
    IpAddress::V4(o[0], o[1], o[2], o[3])
}

/// The address of eight segments.
pub open spec fn v6_of(g: [u16; 8]) -> IpAddress {
    IpAddress::V6(g[0], g[1], g[2], g[3], g[4], g[5], g[6], g[7])
}

/// Whether an address is internal ([`v4_internal`], [`v6_internal`]).
pub open spec fn internal(ip: IpAddress) -> bool {
    match ip {
        IpAddress::V4(a, b, c, d) => v4_internal(a, b, c, d),
        IpAddress::V6(s0, s1, s2, s3, s4, s5, s6, s7) => v6_internal((s0, s1, s2, s3, s4, s5, s6, s7)),
    }
}

/// Whether an address belongs to a private, loopback, link-local,
/// unspecified or otherwise internal range ([`internal`]).
pub fn is_private_ip(ip: IpAddress) -> (r: bool)
    ensures
        r == internal(ip),
{
    match ip {
        IpAddress::V4(a, b, c, d) => {
            let private = a == 10 || (a == 172 && 16 <= b && b <= 31) || (a == 192 && b == 168);
            let doc = (a == 192 && b == 0 && c == 2) || (a == 198 && b == 51 && c == 100) || (a
                == 203 && b == 0 && c == 113);
            let reserved = (a == 100 && 64 <= b && b <= 127) || (a == 192 && b == 0 && c == 0) || (a
                == 198 && 18 <= b && b <= 19);
            private || a == 127 || (a == 169 && b == 254) || (a == 255 && b == 255 && c == 255 && d
                == 255) || (a == 0 && b == 0 && c == 0 && d == 0) || doc || reserved
        },
        IpAddress::V6(s0, s1, s2, s3, s4, s5, s6, s7) => {
            let zero6 = s0 == 0 && s1 == 0 && s2 == 0 && s3 == 0 && s4 == 0 && s5 == 0 && s6 == 0;
            (zero6 && s7 == 1) || (zero6 && s7 == 0) || (0xfc00 <= s0 && s0 <= 0xfdff) || (0xfe80
                <= s0 && s0 <= 0xfebf) || 0xff00 <= s0
        },
    }
}

/// Why an outgoing URL was refused.
#[derive(Debug, PartialEq, Eq)]
pub enum NetError {
    /// The text is not a URL.
    InvalidUrl,
    /// The scheme is neither `http` nor `https`.
    UnsupportedScheme(String),
    /// The URL has no host.
    MissingHost,
    /// The target is an internal address.
    PrivateAddress(IpAddress),
}

/// What remains to check of an accepted URL.
#[derive(Debug, PartialEq, Eq)]
pub enum HostCheck {
    /// The host is a public address: nothing remains.
    Public,
    /// The host is a name: its first resolved address must be checked
    /// ([`check_resolved`]).
    Resolve { host: String, port: u16 },
}

/// The verdict on an outgoing URL before name resolution: refused unless it
/// parses with scheme `http` or `https` and a host; an address host is
/// checked at once; a name host is resolved (default port 80) and checked
/// after.
pub open spec fn url_verdict(url: Seq<char>) -> Result<HostCheck, NetError> {
    match parsed_url(url) {
        None => Err(NetError::InvalidUrl),
        Some(p) => if !(p.scheme@ == "http"@ || p.scheme@ == "https"@) {
            Err(NetError::UnsupportedScheme(p.scheme))
        } else {
            match p.host_str {
                None => Err(NetError::MissingHost),
                Some(h) => match p.host {
                    Some(UrlHost::V4(o)) => if internal(v4_of(o)) {
                        Err(NetError::PrivateAddress(v4_of(o)))
                    } else {
                        Ok(HostCheck::Public)
                    },
                    Some(UrlHost::V6(g)) => if internal(v6_of(g)) {
                        Err(NetError::PrivateAddress(v6_of(g)))
                    } else {
                        Ok(HostCheck::Public)
                    },
                    _ => Ok(
                        HostCheck::Resolve {
                            host: h,
                            port: match p.port {
                                Some(x) => x,
                                None => 80,
                            },
                        },
                    ),
                },
            }
        },
    }
}

/// Checks an outgoing URL as far as it can be without resolving names
/// ([`url_verdict`]).
pub fn assert_public_http_url(url: &str) -> (r: Result<HostCheck, NetError>)
    ensures
        r == url_verdict(url@),
{
    let p = match parse_url(url) {
        Some(p) => p,
        None => return Err(NetError::InvalidUrl),
    };
    let sc = chars_of(p.scheme.as_str());
    let http = chars_of("http");
    let https = chars_of("https");
    if !(seq_eq(&sc, &http) || seq_eq(&sc, &https)) {
        return Err(NetError::UnsupportedScheme(p.scheme));
    }
    let h = match p.host_str {
        Some(h) => h,
        None => return Err(NetError::MissingHost),
    };
    match p.host {
        Some(UrlHost::V4(o)) => {
            let ip = IpAddress::V4(o[0], o[1], o[2], o[3]);
            if is_private_ip(ip) {
                Err(NetError::PrivateAddress(ip))
            } else {
                Ok(HostCheck::Public)
            }
        },
        Some(UrlHost::V6(g)) => {
            let ip = IpAddress::V6(g[0], g[1], g[2], g[3], g[4], g[5], g[6], g[7]);
            if is_private_ip(ip) {
                Err(NetError::PrivateAddress(ip))
            } else {
                Ok(HostCheck::Public)
            }
        },
        _ => Ok(
            HostCheck::Resolve {
                host: h,
                port: match p.port {
                    Some(x) => x,
                    None => 80,
                },
            },
        ),
    }
}

/// The verdict after resolving a name: refused when the first address is
/// internal; accepted when it is public or the name did not resolve.
pub fn check_resolved(first: Option<IpAddress>) -> (r: Result<(), NetError>)
    ensures
        match first {
            Some(ip) => if internal(ip) {
                r == Err::<(), NetError>(NetError::PrivateAddress(ip))
            } else {
                r is Ok
            },
            None => r is Ok,
        },
{
    match first {
        Some(ip) => if is_private_ip(ip) {
            Err(NetError::PrivateAddress(ip))
        } else {
            Ok(())
        },
        None => Ok(()),
    }
}

/// An address the image downloader refuses: a private, loopback,
/// link-local, unspecified, broadcast, "this network" (0/8) or reserved IPv4
/// address, or an internal IPv6 address.
pub open spec fn image_internal(ip: IpAddress) -> bool {
    match ip {
        IpAddress::V4(a, b, c, d) => {
            ||| v4_private(a, b)
            ||| a == 127
            ||| (a == 169 && b == 254)
            ||| (a == 0 && b == 0 && c == 0 && d == 0)
            ||| (a == 255 && b == 255 && c == 255 && d == 255)
            ||| a == 0
            ||| v4_reserved(a, b, c)
        },
        IpAddress::V6(s0, s1, s2, s3, s4, s5, s6, s7) => v6_internal((s0, s1, s2, s3, s4, s5, s6, s7)),
    }
}

/// Whether the image downloader refuses an address ([`image_internal`]).
pub fn is_private_image_ip(ip: IpAddress) -> (r: bool)
    ensures
        r == image_internal(ip),
{
    match ip {
        IpAddress::V4(a, b, c, d) => {
            let private = a == 10 || (a == 172 && 16 <= b && b <= 31) || (a == 192 && b == 168);
            let reserved = (a == 100 && 64 <= b && b <= 127) || (a == 192 && b == 0 && c == 0) || (a
                == 198 && 18 <= b && b <= 19);
            private || a == 127 || (a == 169 && b == 254) || (a == 0 && b == 0 && c == 0 && d == 0)
                || (a == 255 && b == 255 && c == 255 && d == 255) || a == 0 || reserved
        },
        IpAddress::V6(..) => is_private_ip(ip),
    }
}

/// Every loopback address is refused, by both guards.
pub proof fn law_loopback_refused(b: u8, c: u8, d: u8)
    ensures
        internal(IpAddress::V4(127, b, c, d)),
        image_internal(IpAddress::V4(127, b, c, d)),
        internal(IpAddress::V6(0, 0, 0, 0, 0, 0, 0, 1)),
        image_internal(IpAddress::V6(0, 0, 0, 0, 0, 0, 0, 1)),
{
}


/// The verdict on an image URL before its download: refused when it does not
/// parse or has no host, or when its host is an address the image guard
/// refuses ([`image_internal`]); otherwise its scheme, and what remains to
/// check of its host (a name is resolved, default port 80).
pub open spec fn image_url_verdict(url: Seq<char>) -> Result<(Seq<char>, HostCheck), NetError> {
    match parsed_url(url) {
        None => Err(NetError::InvalidUrl),
        Some(p) => match p.host_str {
            None => Err(NetError::MissingHost),
            Some(h) => match p.host {
                Some(UrlHost::V4(o)) => if image_internal(v4_of(o)) {
                    Err(NetError::PrivateAddress(v4_of(o)))
                } else {
                    Ok((p.scheme@, HostCheck::Public))
                },
                Some(UrlHost::V6(g)) => if image_internal(v6_of(g)) {
                    Err(NetError::PrivateAddress(v6_of(g)))
                } else {
                    Ok((p.scheme@, HostCheck::Public))
                },
                _ => Ok(
                    (
                        p.scheme@,
                        HostCheck::Resolve {
                            host: h,
                            port: match p.port {
                                Some(x) => x,
                                None => 80,
                            },
                        },
                    ),
                ),
            },
        },
    }
}

/// Checks an image URL before its download ([`image_url_verdict`]).
pub fn check_image_url(url: &str) -> (r: Result<(String, HostCheck), NetError>)
    ensures
        match r {
            Ok((s, c)) => image_url_verdict(url@) == Ok::<(Seq<char>, HostCheck), NetError>((s@, c)),
            Err(e) => image_url_verdict(url@) == Err::<(Seq<char>, HostCheck), NetError>(e),
        },
{
    let p = match parse_url(url) {
        Some(p) => p,
        None => return Err(NetError::InvalidUrl),
    };
    let h = match p.host_str {
        Some(h) => h,
        None => return Err(NetError::MissingHost),
    };
    match p.host {
        Some(UrlHost::V4(o)) => {
            let ip = IpAddress::V4(o[0], o[1], o[2], o[3]);
            if is_private_image_ip(ip) {
                Err(NetError::PrivateAddress(ip))
            } else {
                Ok((p.scheme, HostCheck::Public))
            }
        },
        Some(UrlHost::V6(g)) => {
            let ip = IpAddress::V6(g[0], g[1], g[2], g[3], g[4], g[5], g[6], g[7]);
            if is_private_image_ip(ip) {
                Err(NetError::PrivateAddress(ip))
            } else {
                Ok((p.scheme, HostCheck::Public))
            }
        },
        _ => Ok(
            (
                p.scheme,
                HostCheck::Resolve {
                    host: h,
                    port: match p.port {
                        Some(x) => x,
                        None => 80,
                    },
                },
            ),
        ),
    }
}

/// The guard of an image download: with private hosts allowed, only that the
/// URL parses (nothing remains to check of its host); otherwise
/// [`image_url_verdict`].
pub open spec fn image_guard(url: Seq<char>, allow_private: bool) -> Result<(Seq<char>, HostCheck), NetError> {
    if allow_private {
        match parsed_url(url) {
            None => Err(NetError::InvalidUrl),
            Some(p) => Ok((p.scheme@, HostCheck::Public)),
        }
    } else {
        image_url_verdict(url)
    }
}

/// Checks an image URL before its download ([`image_guard`]).
pub fn guard_image_url(url: &str, allow_private: bool) -> (r: Result<(String, HostCheck), NetError>)
    ensures
        match r {
            Ok((s, c)) => image_guard(url@, allow_private) == Ok::<(Seq<char>, HostCheck), NetError>(
                (s@, c),
            ),
            Err(e) => image_guard(url@, allow_private) == Err::<(Seq<char>, HostCheck), NetError>(e),
        },
{
    if allow_private {
        match parse_url(url) {
            None => Err(NetError::InvalidUrl),
            Some(p) => Ok((p.scheme, HostCheck::Public)),
        }
    } else {
        check_image_url(url)
    }
}

/// The first address of a resolved image host that the image guard refuses.
pub open spec fn first_image_internal(addrs: Seq<IpAddress>) -> Option<IpAddress>
    decreases addrs.len(),
{
    if addrs.len() == 0 {
        None
    } else if image_internal(addrs[0]) {
        Some(addrs[0])
    } else {
        first_image_internal(addrs.drop_first())
    }
}

/// The verdict on the addresses an image host resolved to: refused at the
/// first one the image guard refuses, accepted when none is.
pub fn check_resolved_image(addrs: &[IpAddress]) -> (r: Result<(), NetError>)
    ensures
        match first_image_internal(addrs@) {
            Some(ip) => r == Err::<(), NetError>(NetError::PrivateAddress(ip)),
            None => r is Ok,
        },
{
    let mut i: usize = 0;
    proof {
        assert(addrs@.skip(0) =~= addrs@);
    }
    while i < addrs.len()
        invariant
            i <= addrs.len(),
            first_image_internal(addrs@) == first_image_internal(addrs@.skip(i as int)),
        decreases addrs.len() - i,
    {
        proof {
            assert(addrs@.skip(i as int).drop_first() =~= addrs@.skip(i + 1));
            assert(addrs@.skip(i as int)[0] == addrs@[i as int]);
        }
        if is_private_image_ip(addrs[i]) {
            return Err(NetError::PrivateAddress(addrs[i]));
        }
        i += 1;
    }
    proof {
        assert(addrs@.skip(i as int) =~= Seq::<IpAddress>::empty());
    }
    Ok(())
}

} // verus!

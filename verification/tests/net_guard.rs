use reading_steiner::net_guard::{
    assert_public_http_url, check_image_url, check_resolved, check_resolved_image, guard_image_url,
    is_private_image_ip, is_private_ip, HostCheck, IpAddress, NetError,
};

#[test]
fn rejects_non_http_scheme() {
    assert!(assert_public_http_url("file:///etc/passwd").is_err());
    assert!(assert_public_http_url("ftp://example.com").is_err());
}

#[test]
fn rejects_private_literals() {
    for url in [
        "http://127.0.0.1/x",
        "http://10.0.0.1/x",
        "http://192.168.1.1/x",
        "http://169.254.169.254/latest/meta-data",
        "http://[::1]/x",
    ] {
        assert!(assert_public_http_url(url).is_err(), "{url} should be blocked");
    }
}

#[test]
fn allows_public_host() {
    assert!(assert_public_http_url("https://example.com/list").is_ok());
}

#[test]
fn name_hosts_are_resolved_on_the_default_port() {
    match assert_public_http_url("https://example.com/list") {
        Ok(HostCheck::Resolve { host, port }) => {
            assert_eq!(host, "example.com");
            assert_eq!(port, 443);
        }
        _ => panic!("a name host is resolved"),
    }
    match assert_public_http_url("http://example.com:8080/") {
        Ok(HostCheck::Resolve { port, .. }) => assert_eq!(port, 8080),
        _ => panic!("a name host is resolved"),
    }
    assert!(matches!(assert_public_http_url("http://93.184.216.34/"), Ok(HostCheck::Public)));
}

#[test]
fn refusals_name_their_reason() {
    assert_eq!(assert_public_http_url("not a url"), Err(NetError::InvalidUrl));
    assert_eq!(
        assert_public_http_url("ftp://example.com"),
        Err(NetError::UnsupportedScheme("ftp".to_string()))
    );
    assert_eq!(
        assert_public_http_url("http://127.0.0.1/x"),
        Err(NetError::PrivateAddress(IpAddress::V4(127, 0, 0, 1)))
    );
}

#[test]
fn private_ranges_are_internal() {
    assert!(is_private_ip(IpAddress::V4(100, 64, 0, 1)));
    assert!(is_private_ip(IpAddress::V4(192, 0, 0, 8)));
    assert!(is_private_ip(IpAddress::V4(198, 19, 255, 255)));
    assert!(is_private_ip(IpAddress::V4(203, 0, 113, 7)));
    assert!(is_private_ip(IpAddress::V4(255, 255, 255, 255)));
    assert!(!is_private_ip(IpAddress::V4(8, 8, 8, 8)));
    assert!(!is_private_ip(IpAddress::V4(172, 32, 0, 1)));
    assert!(is_private_ip(IpAddress::V6(0xfd00, 0, 0, 0, 0, 0, 0, 1)));
    assert!(is_private_ip(IpAddress::V6(0xfe80, 0, 0, 0, 0, 0, 0, 1)));
    assert!(is_private_ip(IpAddress::V6(0xff02, 0, 0, 0, 0, 0, 0, 1)));
    assert!(!is_private_ip(IpAddress::V6(0x2001, 0x4860, 0, 0, 0, 0, 0, 0x8888)));
}

#[test]
fn image_guard_refuses_this_network() {
    assert!(is_private_image_ip(IpAddress::V4(0, 1, 2, 3)));
    assert!(!is_private_ip(IpAddress::V4(0, 1, 2, 3)));
    assert!(!is_private_image_ip(IpAddress::V4(192, 0, 2, 1)));
}

#[test]
fn resolved_addresses_are_checked() {
    assert_eq!(check_resolved(None), Ok(()));
    assert_eq!(check_resolved(Some(IpAddress::V4(1, 1, 1, 1))), Ok(()));
    assert_eq!(
        check_resolved(Some(IpAddress::V4(10, 1, 2, 3))),
        Err(NetError::PrivateAddress(IpAddress::V4(10, 1, 2, 3)))
    );
}

#[test]
fn image_urls_are_guarded_before_download() {
    assert_eq!(
        check_image_url("http://10.0.0.1/a.jpg"),
        Err(NetError::PrivateAddress(IpAddress::V4(10, 0, 0, 1)))
    );
    assert_eq!(
        check_image_url("https://example.com/a.png"),
        Ok(("https".to_string(), HostCheck::Resolve { host: "example.com".to_string(), port: 443 }))
    );
    assert_eq!(check_image_url("http://8.8.8.8/a.png"), Ok(("http".to_string(), HostCheck::Public)));
    assert_eq!(check_image_url("nonsense"), Err(NetError::InvalidUrl));
    assert_eq!(
        check_resolved_image(&[IpAddress::V4(8, 8, 8, 8), IpAddress::V4(0, 1, 2, 3), IpAddress::V4(10, 0, 0, 1)]),
        Err(NetError::PrivateAddress(IpAddress::V4(0, 1, 2, 3)))
    );
    assert_eq!(check_resolved_image(&[IpAddress::V4(8, 8, 8, 8)]), Ok(()));
    assert_eq!(check_resolved_image(&[]), Ok(()));
}

#[test]
fn image_guard_allows_private_hosts_only_when_asked() {
    assert_eq!(
        guard_image_url("http://127.0.0.1/a.png", false),
        Err(NetError::PrivateAddress(IpAddress::V4(127, 0, 0, 1)))
    );
    assert_eq!(guard_image_url("http://127.0.0.1/a.png", true), Ok(("http".to_string(), HostCheck::Public)));
    assert_eq!(guard_image_url("data:image/png;base64,AAAA", true), Ok(("data".to_string(), HostCheck::Public)));
    assert_eq!(guard_image_url("not a url", true), Err(NetError::InvalidUrl));
}

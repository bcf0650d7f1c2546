use real_ip::{
    extract_real_ip, extract_real_ip_strict, parse_ip, HeaderMap, IpAddr, IpExtractor, Ipv4Addr,
    RealIpError,
};

fn ip(s: &str) -> IpAddr {
    IpAddr::parse(s).unwrap()
}

fn headers_of(pairs: &[(&str, &str)]) -> HeaderMap {
    let mut headers = HeaderMap::new();
    for (k, v) in pairs {
        headers.insert(k.to_string(), v.to_string());
    }
    headers
}

#[test]
fn test_extract_x_real_ip() {
    let mut headers = HeaderMap::new();
    headers.insert("x-real-ip".to_string(), "192.168.1.100".to_string());

    let ip = extract_real_ip(&headers, None);
    assert_eq!(ip, Some(IpAddr::parse("192.168.1.100").unwrap()));
}

#[test]
fn test_extract_x_forwarded_for() {
    let mut headers = HeaderMap::new();
    headers.insert(
        "x-forwarded-for".to_string(),
        "203.0.113.1, 192.168.1.1".to_string(),
    );

    let ip = extract_real_ip(&headers, None);
    assert_eq!(ip, Some(IpAddr::parse("203.0.113.1").unwrap()));
}

#[test]
fn test_fallback_ip() {
    let headers = HeaderMap::new();
    let ip = extract_real_ip(&headers, Some("127.0.0.1".to_string()));
    assert_eq!(ip, Some(IpAddr::parse("127.0.0.1").unwrap()));
}

#[test]
fn test_no_ip_found() {
    let headers = HeaderMap::new();
    let ip = extract_real_ip(&headers, None);
    assert_eq!(ip, None);
}

#[test]
fn test_strict_mode_rejects_private() {
    let mut headers = HeaderMap::new();
    headers.insert("x-real-ip".to_string(), "192.168.1.100".to_string());

    let ip = extract_real_ip_strict(&headers, Some("203.0.113.1".to_string()));
    assert_eq!(ip, Some(IpAddr::parse("203.0.113.1").unwrap()));
}

#[test]
fn header_priority_follows_configured_order() {
    let headers = headers_of(&[
        ("x-real-ip", "203.0.113.100"),
        ("cf-connecting-ip", "198.51.100.200"),
        ("x-forwarded-for", "192.0.2.50"),
    ]);
    let e = IpExtractor::default().trust_private_ips(true);
    assert_eq!(e.extract(&headers, None), Some(ip("203.0.113.100")));
}

#[test]
fn chain_read_from_the_left() {
    let headers = headers_of(&[("x-forwarded-for", "203.0.113.1, 192.168.1.1")]);
    let e = IpExtractor::new().trust_private_ips(true).use_first_forwarded(true);
    assert_eq!(e.extract(&headers, None), Some(ip("203.0.113.1")));
}

#[test]
fn chain_read_from_the_right() {
    let headers = headers_of(&[("x-forwarded-for", "203.0.113.1, 192.168.1.1")]);
    let e = IpExtractor::new().trust_private_ips(true).use_first_forwarded(false);
    assert_eq!(e.extract(&headers, None), Some(ip("192.168.1.1")));
}

#[test]
fn chain_from_the_right_rejected_whole_header() {
    let headers = headers_of(&[("x-forwarded-for", "203.0.113.1, 192.168.1.1")]);
    let e = IpExtractor::new().trust_private_ips(false).use_first_forwarded(false);
    assert_eq!(e.extract(&headers, None), None);
}

#[test]
fn strict_rejection_falls_back() {
    let headers = headers_of(&[("x-real-ip", "192.168.1.100")]);
    let e = IpExtractor::new().trust_private_ips(false);
    assert_eq!(
        e.extract(&headers, Some("203.0.113.1".to_string())),
        Some(ip("203.0.113.1"))
    );
}

#[test]
fn fallback_is_not_held_to_trust_policy() {
    let headers = HeaderMap::new();
    let e = IpExtractor::new().trust_private_ips(false);
    assert_eq!(
        e.extract(&headers, Some("10.0.0.1".to_string())),
        Some(ip("10.0.0.1"))
    );
}

#[test]
fn unparsable_fallback_gives_nothing() {
    let headers = HeaderMap::new();
    assert_eq!(extract_real_ip(&headers, Some("nope".to_string())), None);
}

#[test]
fn empty_input_gives_nothing() {
    let headers = HeaderMap::new();
    let e = IpExtractor::new();
    assert_eq!(e.extract(&headers, None), None);
}

#[test]
fn malformed_segment_is_skipped() {
    let headers = headers_of(&[("x-forwarded-for", "not-an-ip, 203.0.113.9")]);
    let e = IpExtractor::new().use_first_forwarded(true);
    assert_eq!(e.extract(&headers, None), Some(ip("203.0.113.9")));
}

#[test]
fn extraction_is_repeatable() {
    let headers = headers_of(&[
        ("x-forwarded-for", "198.51.100.7, 10.0.0.1"),
        ("forwarded", "192.0.2.1"),
    ]);
    let e = IpExtractor::new();
    let first = e.extract(&headers, Some("203.0.113.5".to_string()));
    let second = e.extract(&headers, Some("203.0.113.5".to_string()));
    assert_eq!(first, second);
    assert_eq!(first, Some(ip("198.51.100.7")));
}

#[test]
fn malformed_header_moves_to_next_header() {
    let headers = headers_of(&[("x-real-ip", "garbage"), ("x-forwarded", "198.51.100.3")]);
    assert_eq!(extract_real_ip_strict(&headers, None), Some(ip("198.51.100.3")));
}

#[test]
fn configured_names_are_lower_cased() {
    let headers = headers_of(&[("x-client-ip", "198.51.100.77")]);
    let e = IpExtractor::new().with_headers(vec!["X-Client-IP".to_string()]);
    assert_eq!(e.extract(&headers, None), Some(ip("198.51.100.77")));
}

#[test]
fn header_candidate_looks_up_exact_key() {
    let headers = headers_of(&[("x-client-ip", "198.51.100.77")]);
    let e = IpExtractor::new();
    assert_eq!(
        e.header_candidate(&"x-client-ip".to_string(), &headers),
        Some(ip("198.51.100.77"))
    );
    assert_eq!(e.header_candidate(&"X-Client-IP".to_string(), &headers), None);
}

#[test]
fn value_is_trimmed() {
    let headers = headers_of(&[("x-real-ip", " \t198.51.100.4\u{a0} ")]);
    assert_eq!(extract_real_ip(&headers, None), Some(ip("198.51.100.4")));
}

#[test]
fn private_ranges_rejected_by_default() {
    for addr in [
        "10.1.2.3",
        "172.16.0.1",
        "172.31.255.255",
        "192.168.0.1",
        "127.0.0.1",
        "169.254.1.1",
        "::1",
        "fc00::1",
        "fdff::1",
        "fe80::1",
        "febf::1",
    ] {
        let headers = headers_of(&[("x-real-ip", addr)]);
        assert_eq!(extract_real_ip_strict(&headers, None), None, "{}", addr);
        assert_eq!(extract_real_ip(&headers, None), Some(ip(addr)), "{}", addr);
    }
}

#[test]
fn public_addresses_accepted_by_default() {
    for addr in [
        "172.15.0.1",
        "172.32.0.1",
        "192.169.0.1",
        "169.255.0.1",
        "11.0.0.1",
        "2001:db8::1",
        "fec0::1",
        "::2",
    ] {
        let headers = headers_of(&[("x-real-ip", addr)]);
        assert_eq!(extract_real_ip_strict(&headers, None), Some(ip(addr)), "{}", addr);
    }
}

#[test]
fn later_insert_replaces_value() {
    let mut headers = HeaderMap::new();
    headers.insert("x-real-ip".to_string(), "198.51.100.1".to_string());
    headers.insert("x-real-ip".to_string(), "198.51.100.2".to_string());
    assert_eq!(headers.get(&"x-real-ip".to_string()), Some(&"198.51.100.2".to_string()));
    assert_eq!(headers.get(&"x-other".to_string()), None);
}

#[test]
fn default_configuration() {
    let e = IpExtractor::default();
    assert_eq!(
        e.headers,
        vec![
            "x-real-ip",
            "cf-connecting-ip",
            "x-forwarded-for",
            "x-forwarded",
            "forwarded-for",
            "forwarded"
        ]
    );
    assert!(!e.trust_private_ips);
    assert!(e.use_first_forwarded);
}

#[test]
fn parse_ip_reports_invalid_format() {
    assert_eq!(
        parse_ip("300.1.1.1"),
        Err(RealIpError::InvalidIpFormat("300.1.1.1".to_string()))
    );
    assert_eq!(parse_ip("1.2.3.4"), Ok(IpAddr::V4(Ipv4Addr::new(1, 2, 3, 4))));
}

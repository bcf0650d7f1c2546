use real_ip::{HeaderMap, IpAddr, IpExtractor, RealIp, RealIpLayer};

fn ip(s: &str) -> IpAddr {
    IpAddr::parse(s).unwrap()
}

#[test]
fn default_layer_trusts_private() {
    let layer = RealIpLayer::new();
    assert!(layer.extractor().trust_private_ips);
    let strict = RealIpLayer::strict();
    assert!(!strict.extractor().trust_private_ips);
    assert_eq!(strict.extractor().headers, layer.extractor().headers);
}

#[test]
fn service_resolves_with_layer_configuration() {
    let mut headers = HeaderMap::new();
    headers.insert("x-real-ip".to_string(), "192.168.1.100".to_string());
    let permissive = RealIpLayer::new().layer(());
    assert_eq!(
        permissive.resolve(&headers, Some("203.0.113.1".to_string())),
        Some(RealIp(ip("192.168.1.100")))
    );
    let strict = RealIpLayer::strict().layer(());
    assert_eq!(
        strict.resolve(&headers, Some("203.0.113.1".to_string())),
        Some(RealIp(ip("203.0.113.1")))
    );
    let custom = RealIpLayer::with_extractor(IpExtractor::new().with_headers(vec![]));
    assert_eq!(custom.layer(()).resolve(&headers, None), None);
}

#[test]
fn accessor_prefers_attached_then_strict_then_loopback() {
    let mut headers = HeaderMap::new();
    headers.insert("x-real-ip".to_string(), "192.168.1.100".to_string());
    let attached = RealIp(ip("198.51.100.9"));
    assert_eq!(RealIp::from_parts(Some(attached), &headers, None), attached);
    assert_eq!(
        RealIp::from_parts(None, &headers, Some("203.0.113.1".to_string())).ip(),
        ip("203.0.113.1")
    );
    assert_eq!(RealIp::from_parts(None, &headers, None).ip(), ip("127.0.0.1"));
}

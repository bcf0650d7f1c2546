use real_ip::{IpAddr, Ipv4Addr, Ipv6Addr};

fn v6(s: [u16; 8]) -> Option<IpAddr> {
    Some(IpAddr::V6(Ipv6Addr {
        s0: s[0],
        s1: s[1],
        s2: s[2],
        s3: s[3],
        s4: s[4],
        s5: s[5],
        s6: s[6],
        s7: s[7],
    }))
}

#[test]
fn parses_ipv4() {
    assert_eq!(IpAddr::parse("203.0.113.1"), Some(IpAddr::V4(Ipv4Addr::new(203, 0, 113, 1))));
    assert_eq!(IpAddr::parse("0.0.0.0"), Some(IpAddr::V4(Ipv4Addr::new(0, 0, 0, 0))));
    assert_eq!(
        IpAddr::parse("255.255.255.255"),
        Some(IpAddr::V4(Ipv4Addr::new(255, 255, 255, 255)))
    );
}

#[test]
fn rejects_bad_ipv4() {
    for s in [
        "", "1.2.3", "1.2.3.4.5", "256.1.1.1", "01.2.3.4", "1.2.3.04", "1..3.4", "1.2.3.4 ",
        "a.b.c.d", "1234.1.1.1", "+1.2.3.4",
    ] {
        assert_eq!(IpAddr::parse(s), None, "{}", s);
    }
}

#[test]
fn parses_ipv6() {
    assert_eq!(IpAddr::parse("::"), v6([0, 0, 0, 0, 0, 0, 0, 0]));
    assert_eq!(IpAddr::parse("::1"), v6([0, 0, 0, 0, 0, 0, 0, 1]));
    assert_eq!(IpAddr::parse("1::"), v6([1, 0, 0, 0, 0, 0, 0, 0]));
    assert_eq!(
        IpAddr::parse("2001:DB8:0:0:8:800:200C:417A"),
        v6([0x2001, 0xdb8, 0, 0, 8, 0x800, 0x200c, 0x417a])
    );
    assert_eq!(IpAddr::parse("fe80::1:2"), v6([0xfe80, 0, 0, 0, 0, 0, 1, 2]));
    assert_eq!(
        IpAddr::parse("::ffff:192.0.2.1"),
        v6([0, 0, 0, 0, 0, 0xffff, 0xc000, 0x0201])
    );
    assert_eq!(
        IpAddr::parse("1:2:3:4:5:6:1.2.3.4"),
        v6([1, 2, 3, 4, 5, 6, 0x0102, 0x0304])
    );
    assert_eq!(IpAddr::parse("1:2:3:4:5:6:7::"), v6([1, 2, 3, 4, 5, 6, 7, 0]));
}

#[test]
fn rejects_bad_ipv6() {
    for s in [
        ":",
        ":::",
        "1::2::3",
        "1:2:3:4:5:6:7",
        "1:2:3:4:5:6:7:8:9",
        "1:2:3:4:5:6:7:8::",
        "12345::",
        "1:",
        ":1",
        "1.2.3.4::",
        "1:2:3:4:5:6::1.2.3.4",
        "g::1",
        "::1.2.3",
    ] {
        assert_eq!(IpAddr::parse(s), None, "{}", s);
    }
}

#[test]
fn localhost_is_loopback() {
    assert_eq!(IpAddr::localhost(), IpAddr::V4(Ipv4Addr::new(127, 0, 0, 1)));
}

use connectalso::addr::{IpAddr, Ipv4Addr, Ipv6Addr, SocketAddr};

#[test]
fn addresses_are_written_with_dots() {
    assert_eq!(Ipv4Addr::new(100, 64, 0, 1).to_string(), "100.64.0.1");
    assert_eq!(Ipv4Addr::unspecified().to_string(), "0.0.0.0");
    assert_eq!(Ipv4Addr::new(255, 255, 255, 255).octets(), [255; 4]);
    assert_eq!(Ipv4Addr::new(1, 2, 3, 4).bits, 0x0102_0304);
}

#[test]
fn addresses_are_read_back() {
    for bits in [0u32, 1, 0x0A00_0001, 0x6440_FFFE, u32::MAX] {
        let ip = Ipv4Addr { bits };
        assert_eq!(Ipv4Addr::parse(&ip.to_string()), Some(ip));
    }
}

#[test]
fn anything_else_is_no_address() {
    for text in [
        "", "1", "1.2.3", "1.2.3.4.5", "256.0.0.1", "01.2.3.4", "1.2.3.4 ", " 1.2.3.4", "1..2.3",
        "a.b.c.d", "+1.2.3.4", "1.2.3.-4", "1.2.3.4/8", "1.2.3.1000",
    ] {
        assert_eq!(Ipv4Addr::parse(text), None, "{text}");
    }
}

#[test]
fn socket_addresses_hold_address_and_port() {
    let ip = IpAddr::V4(Ipv4Addr::new(1, 2, 3, 4));
    let addr = SocketAddr::new(ip, 80);
    assert_eq!((addr.ip(), addr.port()), (ip, 80));
    let ip = IpAddr::V6(Ipv6Addr { bits: 1 });
    let addr = SocketAddr::new(ip, 81);
    assert_eq!((addr.ip(), addr.port()), (ip, 81));
}

use connectalso::addr::Ipv4Addr;
use connectalso::error::{IoError, IoErrorKind};
use connectalso::tun::{log_packet_info, PacketNote, TunConfig, TunDevice, TunError};

#[test]
fn configurations_have_defaults() {
    let c = TunConfig::default();
    assert_eq!(c.address, Ipv4Addr::new(100, 64, 0, 1));
    assert_eq!(c.netmask, Ipv4Addr::new(255, 255, 255, 0));
    assert_eq!((c.mtu, c.name.is_none()), (1500, true));
    let c = TunConfig::new(Ipv4Addr::new(10, 0, 0, 1), Ipv4Addr::new(255, 0, 0, 0));
    assert_eq!(c.mtu, 1500);
    assert_eq!(TunDevice::create(c.clone()).name(), "tun");
    let d = TunDevice::create(c.with_name("vpn0".to_string()).with_mtu(1280));
    assert_eq!((d.name(), d.mtu()), ("vpn0", 1280));
    assert_eq!(d.address(), Ipv4Addr::new(10, 0, 0, 1));
    assert_eq!(d.netmask(), Ipv4Addr::new(255, 0, 0, 0));
}

#[test]
fn buffers_must_hold_a_packet() {
    let d = TunDevice::create(TunConfig::default());
    assert!(d.check_buffer(1500).is_ok());
    assert!(matches!(
        d.check_buffer(1499),
        Err(TunError::BufferTooSmall { need: 1500, got: 1499 })
    ));
    let failed = || IoError::new(IoErrorKind::Other, "down");
    assert!(matches!(d.recv(1500, Ok(60)), Ok(60)));
    assert!(matches!(d.recv(10, Ok(60)), Err(TunError::BufferTooSmall { .. })));
    assert!(matches!(d.recv(1500, Err(failed())), Err(TunError::Recv(e)) if e == failed()));
    assert!(matches!(d.send(Ok(60)), Ok(60)));
    assert!(matches!(d.send(Err(failed())), Err(TunError::Send(e)) if e == failed()));
}

#[test]
fn packets_are_noted_by_version() {
    assert_eq!(log_packet_info(&[]), None);
    let mut pkt = [0u8; 20];
    pkt[0] = 0x45;
    pkt[9] = 17;
    pkt[12..16].copy_from_slice(&[1, 2, 3, 4]);
    pkt[16..20].copy_from_slice(&[5, 6, 7, 8]);
    assert_eq!(
        log_packet_info(&pkt),
        Some(PacketNote::Ipv4 {
            size: 20,
            src: Ipv4Addr::new(1, 2, 3, 4),
            dst: Ipv4Addr::new(5, 6, 7, 8),
            protocol: 17
        })
    );
    assert_eq!(
        log_packet_info(&pkt[..19]),
        Some(PacketNote::Other { size: 19, ip_version: 4 })
    );
    assert_eq!(log_packet_info(&[0x60, 0]), Some(PacketNote::Ipv6 { size: 2 }));
    assert_eq!(log_packet_info(&[0x10]), Some(PacketNote::Other { size: 1, ip_version: 1 }));
}

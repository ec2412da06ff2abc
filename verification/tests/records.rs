use dsnitch::addr::IpAddr;
use dsnitch::events::{
    ConnectEvent, DnsPacketEvent, SocketCloseEvent, CONNECT_EVENT_SIZE, DNS_PACKET_EVENT_SIZE,
    SOCKET_CLOSE_EVENT_SIZE,
};
use dsnitch::probe::{dsnitch_connect4, dsnitch_connect6, SockAddr, TaskContext, ALLOW};

fn numbered(len: usize) -> Vec<u8> {
    (0..len).map(|i| (i % 251) as u8).collect()
}

fn octets(data: &[u8], from: usize) -> [u8; 16] {
    let mut out = [0u8; 16];
    out.copy_from_slice(&data[from..from + 16]);
    out
}

#[test]
fn connect_records_are_read_field_by_field() {
    let data = numbered(CONNECT_EVENT_SIZE + 5);
    let event = ConnectEvent::decode(&data).unwrap();
    assert_eq!(event.timestamp_ns, 0x0706050403020100);
    assert_eq!(event.cgroup_id, 0x0f0e0d0c0b0a0908);
    assert_eq!(event.skaddr, 0x1716151413121110);
    assert_eq!(event.pid, 0x1b1a1918);
    assert_eq!(event.uid, 0x1f1e1d1c);
    assert_eq!(event.saddr, octets(&data, 32));
    assert_eq!(event.daddr, octets(&data, 48));
    assert_eq!(event.sport, 0x4140);
    assert_eq!(event.dport, 0x4342);
    assert_eq!(event.proto, 68);
    assert_eq!(event.ip_version, 69);
    assert_eq!(event.comm, octets(&data, 70));
}

#[test]
fn dns_records_are_read_field_by_field() {
    let data = numbered(DNS_PACKET_EVENT_SIZE);
    let event = DnsPacketEvent::decode(&data).unwrap();
    assert_eq!(event.timestamp_ns, 0x0706050403020100);
    assert_eq!(event.cgroup_id, 0x0f0e0d0c0b0a0908);
    assert_eq!(event.len, 0x13121110);
    assert_eq!(event.payload[..], data[20..788]);
}

#[test]
fn close_records_are_read_field_by_field() {
    let data = numbered(SOCKET_CLOSE_EVENT_SIZE);
    let event = SocketCloseEvent::decode(&data).unwrap();
    assert_eq!(event.timestamp_ns, 0x0706050403020100);
    assert_eq!(event.cgroup_id, 0x0f0e0d0c0b0a0908);
    assert_eq!(event.skaddr, 0x1716151413121110);
    assert_eq!(event.saddr, octets(&data, 24));
    assert_eq!(event.daddr, octets(&data, 40));
    assert_eq!(event.sport, 0x3938);
    assert_eq!(event.dport, 0x3b3a);
    assert_eq!(event.proto, 60);
    assert_eq!(event.ip_version, 61);
}

#[test]
fn short_records_are_not_read() {
    assert!(ConnectEvent::decode(&numbered(CONNECT_EVENT_SIZE - 1)).is_none());
    assert!(DnsPacketEvent::decode(&numbered(DNS_PACKET_EVENT_SIZE - 1)).is_none());
    assert!(SocketCloseEvent::decode(&numbered(SOCKET_CLOSE_EVENT_SIZE - 1)).is_none());
    assert!(ConnectEvent::decode(&[]).is_none());
}

fn task() -> TaskContext {
    TaskContext {
        cgroup_id: 77,
        pid_tgid: (1234 << 32) | 1235,
        uid_gid: (1001 << 32) | 1000,
        timestamp_ns: 5_000,
        comm: Some(*b"curl\0\0\0\0\0\0\0\0\0\0\0\0"),
    }
}

fn address(port: u16, protocol: u32) -> SockAddr {
    SockAddr {
        user_ip4: u32::from_le_bytes([93, 184, 216, 34]),
        user_ip6: [
            u32::from_le_bytes([0x20, 0x01, 0x0d, 0xb8]),
            0,
            0,
            u32::from_le_bytes([0, 0, 0, 9]),
        ],
        user_port: port.to_be().to_le() as u32,
        protocol,
    }
}

#[test]
fn connect4_records_the_call() {
    let outcome = dsnitch_connect4(&Some(address(443, 6)), &task());
    assert_eq!(outcome.verdict, ALLOW);
    let event = outcome.event.unwrap();
    assert_eq!(event.timestamp_ns, 5_000);
    assert_eq!(event.cgroup_id, 77);
    assert_eq!(event.pid, 1234);
    assert_eq!(event.uid, 1000);
    assert_eq!(event.saddr, [0u8; 16]);
    assert_eq!(event.daddr, [93, 184, 216, 34, 0, 0, 0, 0, 0, 0, 0, 0, 0, 0, 0, 0]);
    assert_eq!(event.sport, 0);
    assert_eq!(event.dport, 443);
    assert_eq!(event.proto, 6);
    assert_eq!(event.ip_version, 4);
    assert_eq!(&event.comm[..5], b"curl\0");
}

#[test]
fn connect6_records_the_call() {
    let mut silent = task();
    silent.comm = None;
    let outcome = dsnitch_connect6(&Some(address(8080, 17)), &silent);
    assert_eq!(outcome.verdict, ALLOW);
    let event = outcome.event.unwrap();
    assert_eq!(event.daddr, [0x20, 1, 0x0d, 0xb8, 0, 0, 0, 0, 0, 0, 0, 0, 0, 0, 0, 9]);
    assert_eq!(event.dport, 8080);
    assert_eq!(event.proto, 17);
    assert_eq!(event.ip_version, 6);
    assert_eq!(event.comm, [0u8; 16]);
}

#[test]
fn route_lookups_are_not_recorded() {
    for outcome in [
        dsnitch_connect4(&Some(address(0, 17)), &task()),
        dsnitch_connect6(&Some(address(0, 17)), &task()),
        dsnitch_connect4(&None, &task()),
        dsnitch_connect6(&None, &task()),
    ] {
        assert_eq!(outcome.verdict, ALLOW);
        assert!(outcome.event.is_none());
    }
    assert!(dsnitch_connect4(&Some(address(0, 1)), &task()).event.is_some());
    assert!(dsnitch_connect4(&Some(address(53, 17)), &task()).event.is_some());
}

#[test]
fn recorded_addresses_are_those_dialled() {
    let event = dsnitch_connect4(&Some(address(443, 6)), &task()).event.unwrap();
    assert_eq!(IpAddr::recorded(event.ip_version, &event.daddr), IpAddr::v4(93, 184, 216, 34));
    let event = dsnitch_connect6(&Some(address(443, 6)), &task()).event.unwrap();
    assert_eq!(IpAddr::recorded(event.ip_version, &event.daddr).text(), "2001:db8::9");
}

#[test]
fn a_panic_never_comes_to_a_verdict() {
    assert_eq!(dsnitch::probe::panic(0), None);
    assert_eq!(dsnitch::probe::panic(1_000), None);
}

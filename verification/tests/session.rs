use dsnitch::addr::IpAddr;
use dsnitch::clock::Timestamp;
use dsnitch::dns::{DnsAnswer, DnsCache, DnsMessage};
use dsnitch::docker::{DockerManager, InspectedContainer};
use dsnitch::events::{ConnectEvent, DnsPacketEvent, SocketCloseEvent, MAX_DNS_PAYLOAD};
use dsnitch::order::{ring_order, stamp_order};
use dsnitch::session::forget_container;
use dsnitch::stream::Stream;
use dsnitch::ui::{App, ConnectionStatus};

const START: Timestamp = Timestamp { nanos: 0 };

fn connect(cgroup_id: u64, skaddr: u64) -> ConnectEvent {
    let mut daddr = [0u8; 16];
    daddr[..4].copy_from_slice(&[20, 207, 73, 85]);
    ConnectEvent {
        timestamp_ns: 1_500_000_000,
        cgroup_id,
        skaddr,
        pid: 1,
        uid: 0,
        saddr: [0u8; 16],
        daddr,
        sport: 0,
        dport: 443,
        proto: 6,
        ip_version: 4,
        comm: *b"curl\0\0\0\0\0\0\0\0\0\0\0\0",
    }
}

fn close(cgroup_id: u64, skaddr: u64) -> SocketCloseEvent {
    SocketCloseEvent {
        timestamp_ns: 2_500_000_000,
        cgroup_id,
        skaddr,
        saddr: [0u8; 16],
        daddr: connect(cgroup_id, skaddr).daddr,
        sport: 0,
        dport: 443,
        proto: 6,
        ip_version: 4,
    }
}

fn manager() -> DockerManager {
    let mut manager = DockerManager::new();
    let reply = InspectedContainer {
        name: Some("/web-1".to_string()),
        image: Some("nginx".to_string()),
        labels: None,
        pid: Some(9),
    };
    let _ = manager.inspect_and_cache("abc", &Some(reply), Some(42));
    manager
}

fn cache() -> DnsCache {
    let mut cache = DnsCache::new(256);
    let answer = DnsAnswer {
        name: "api.github.com.".to_string(),
        ttl: 120,
        address: Some(IpAddr::v4(20, 207, 73, 85)),
    };
    let message = DnsMessage { queries: vec!["api.github.com.".to_string()], answers: vec![answer] };
    cache.learn(42, &message, START);
    cache
}

#[test]
fn connections_are_attributed() {
    let mut app = App::new(false, 5);
    let manager = manager();
    let mut cache = cache();
    app.take_connect(Some(&manager), &mut cache, &connect(42, 9), "1.500s".to_string());
    let row = &app.connections[0];
    assert_eq!(row.container_name, "web-1");
    assert_eq!(row.service, "-");
    assert_eq!(row.destination, "api.github.com:443");
    assert_eq!(row.dst_ip_str, "20.207.73.85:443");
    assert!(row.is_docker);
    assert_eq!(app.sorted_containers[0].name, "web-1");
    app.show_close(&close(42, 9));
    assert_eq!(app.connections[0].status, ConnectionStatus::Closed);
}

#[test]
fn unknown_groups_are_host_traffic() {
    let mut app = App::new(true, 5);
    let manager = manager();
    let mut cache = cache();
    app.take_connect_at(
        Some(&manager),
        &mut cache,
        &connect(7, 9),
        "1.500s".to_string(),
        START,
        START,
    );
    assert_eq!(app.connections[0].container_name, "[HOST]");
    assert_eq!(app.connections[0].image, "curl");
    assert_eq!(app.connections[0].destination, "api.github.com:443");
    app.take_connect_at(None, &mut cache, &connect(42, 10), "2.000s".to_string(), START, START);
    assert_eq!(app.connections[1].container_name, "[HOST]");
    assert!(app.containers.is_empty());
}

#[test]
fn host_traffic_is_opt_in() {
    let manager = manager();
    let mut cache = cache();
    let mut quiet = Stream::new(false);
    assert_eq!(quiet.take_connect(Some(&manager), &mut cache, &connect(7, 9), "1.500s"), None);
    assert_eq!(quiet.take_close(&mut cache, &close(7, 9), "2.500s"), None);
    let line = quiet.take_connect(Some(&manager), &mut cache, &connect(42, 9), "1.500s").unwrap();
    assert!(line.contains("web-1"));
    assert!(line.contains("api.github.com:443"));
    let line = quiet.take_close(&mut cache, &close(42, 9), "2.500s").unwrap();
    assert!(line.contains("○ CLOSED"));
    assert!(line.contains("web-1"));

    let mut loud = Stream::new(true);
    let line = loud.take_connect_at(None, &mut cache, &connect(7, 0), "1.500s", START).unwrap();
    assert!(line.contains("[HOST]"));
    let line = loud.take_close_at(&mut cache, &close(7, 3), "2.500s", START).unwrap();
    assert!(line.contains(" api.github.com:443 "));
    let late = Timestamp { nanos: 1_000_000_000_000 };
    let line = loud.take_close_at(&mut cache, &close(7, 3), "2.500s", late).unwrap();
    assert!(!line.contains("api.github.com"));
}

#[test]
fn stopped_containers_take_their_names_along() {
    let mut manager = manager();
    let mut cache = cache();
    assert!(forget_container(&mut manager, &mut cache, "xyz").is_none());
    assert!(cache.resolve_at(42, &IpAddr::v4(20, 207, 73, 85), START).is_some());
    let stopped = forget_container(&mut manager, &mut cache, "abc").unwrap();
    assert_eq!(stopped.cgroup_id, 42);
    assert_eq!(stopped.info.unwrap().name, "web-1");
    assert!(manager.lookup(42).is_none());
    assert_eq!(cache.resolve_at(42, &IpAddr::v4(20, 207, 73, 85), START), None);
}

fn connect_at(skaddr: u64, stamp: u64) -> (ConnectEvent, String) {
    let mut event = connect(42, skaddr);
    event.timestamp_ns = stamp;
    (event, format!("{}ns", stamp))
}

fn close_at(skaddr: u64, stamp: u64) -> SocketCloseEvent {
    let mut event = close(42, skaddr);
    event.timestamp_ns = stamp;
    event
}

fn closed_sockets(app: &App) -> Vec<(u64, bool)> {
    app.connections.iter().map(|c| (c.skaddr, c.status == ConnectionStatus::Closed)).collect()
}

/// An answer that gives `api.github.com` for the address of `connect`.
fn packet() -> DnsPacketEvent {
    let mut wire: Vec<u8> = vec![0x12, 0x34, 0x81, 0x80, 0, 1, 0, 1, 0, 0, 0, 0];
    for part in ["api", "github", "com"] {
        wire.push(part.len() as u8);
        wire.extend_from_slice(part.as_bytes());
    }
    wire.extend_from_slice(&[0, 0, 1, 0, 1, 0xc0, 0x0c, 0, 1, 0, 1, 0, 0, 0, 120, 0, 4]);
    wire.extend_from_slice(&[20, 207, 73, 85]);
    let mut event = DnsPacketEvent {
        timestamp_ns: 9_000_000_000,
        cgroup_id: 42,
        len: wire.len() as u32,
        payload: [0u8; MAX_DNS_PAYLOAD],
    };
    event.payload[..wire.len()].copy_from_slice(&wire);
    event
}

#[test]
fn stamps_order_records() {
    assert_eq!(stamp_order(&vec![]), Vec::<usize>::new());
    assert_eq!(stamp_order(&vec![5, 3, 9, 3, 0]), vec![4, 1, 3, 0, 2]);
    assert_eq!(stamp_order(&vec![7, 7, 7]), vec![0, 1, 2]);
}

#[test]
fn rings_keep_their_order() {
    assert_eq!(ring_order(&vec![1, 5, 9], &vec![5, 7]), vec![0, 1, 3, 4, 2]);
    assert_eq!(ring_order(&vec![9, 5, 20], &vec![6, 4]), vec![0, 1, 3, 4, 2]);
    assert_eq!(ring_order(&vec![], &vec![3, 1, 2]), vec![0, 1, 2]);
    assert_eq!(ring_order(&vec![3, 1, 2], &vec![]), vec![0, 1, 2]);
    assert_eq!(ring_order(&vec![8], &vec![3, 9, 1]), vec![1, 0, 2, 3]);
}

#[test]
fn connections_are_taken_in_the_order_of_their_ring() {
    let mut app = App::new(true, 5);
    let mut cache = cache();
    let connects = vec![connect_at(9, 300), connect_at(10, 100), connect_at(11, 200)];
    app.take_drain_at(None, &mut cache, &vec![], &connects, &vec![close_at(9, 350)], START, START);
    assert_eq!(closed_sockets(&app), vec![(9, true), (10, false), (11, false)]);
}

#[test]
fn a_drain_keeps_the_feed_valid() {
    let mut app = App::new(true, 5);
    app.max_connections = 2;
    let mut cache = cache();
    let connects = vec![connect_at(9, 1), connect_at(10, 2), connect_at(10, 3), connect_at(11, 4)];
    app.take_drain_at(None, &mut cache, &vec![], &connects, &vec![close_at(10, 5)], START, START);
    assert_eq!(closed_sockets(&app), vec![(10, true), (11, false)]);
    assert!(app
        .connections
        .iter()
        .all(|c| (c.status == ConnectionStatus::Closed) == c.closed_at.is_some()));
}

#[test]
fn a_full_counter_of_another_container_is_no_hindrance() {
    let mut app = App::new(false, 5);
    app.update_container(1, "other".to_string(), "-".to_string(), "i".to_string());
    app.containers.get_mut(&1).unwrap().conn_count = u64::MAX;
    let manager = manager();
    let mut cache = cache();
    app.take_drain_at(
        Some(&manager),
        &mut cache,
        &vec![],
        &vec![connect_at(9, 1)],
        &vec![],
        START,
        START,
    );
    assert_eq!(app.containers[&42].conn_count, 1);
    assert_eq!(app.containers[&1].conn_count, u64::MAX);
}

#[test]
fn a_socket_that_opens_and_closes_in_one_drain_is_closed() {
    let mut app = App::new(false, 5);
    let manager = manager();
    let mut cache = cache();
    let connects = vec![connect_at(9, 100), connect_at(10, 100), connect_at(11, 300)];
    let closes = vec![close_at(9, 200), close_at(10, 100), close_at(11, 200)];
    app.take_drain_at(Some(&manager), &mut cache, &vec![], &connects, &closes, START, START);
    assert_eq!(closed_sockets(&app), vec![(9, true), (10, true), (11, false)]);
    assert_eq!(app.total_conns, 3);
    app.take_drain(Some(&manager), &mut cache, &vec![], &vec![], &vec![close_at(11, 400)]);
    assert_eq!(closed_sockets(&app), vec![(9, true), (10, true), (11, true)]);
}

#[test]
fn a_reused_socket_is_open_again() {
    let mut app = App::new(false, 5);
    let manager = manager();
    let mut cache = cache();
    let connects = vec![connect_at(9, 100), connect_at(9, 300)];
    app.take_drain_at(
        Some(&manager),
        &mut cache,
        &vec![],
        &connects,
        &vec![close_at(9, 200)],
        START,
        START,
    );
    assert_eq!(closed_sockets(&app), vec![(9, false)]);
    assert_eq!(app.connections[0].time_str, "300ns");
}

#[test]
fn a_drain_learns_names_before_it_uses_them() {
    let manager = manager();
    let mut app = App::new(false, 5);
    let mut cache = DnsCache::new(256);
    app.take_drain_at(
        Some(&manager),
        &mut cache,
        &vec![packet()],
        &vec![connect_at(9, 100)],
        &vec![],
        START,
        START,
    );
    assert_eq!(app.connections[0].destination, "api.github.com:443");
    let mut stream = Stream::new(false);
    let mut cache = DnsCache::new(256);
    let lines = stream.take_drain_at(
        Some(&manager),
        &mut cache,
        &vec![packet()],
        &vec![connect_at(9, 100)],
        &vec![],
        START,
    );
    assert!(lines[0].contains("api.github.com:443"));
}

#[test]
fn a_drain_prints_sockets_as_they_open_and_close() {
    let mut stream = Stream::new(false);
    let manager = manager();
    let mut cache = cache();
    let connects = vec![connect_at(9, 100), connect_at(10, 150)];
    let closes = vec![(close_at(9, 120), "120ns".to_string())];
    let lines = stream.take_drain(Some(&manager), &mut cache, &vec![], &connects, &closes);
    assert_eq!(lines.len(), 3);
    assert!(lines[0].contains("● ACTIVE") && lines[0].contains("100ns"));
    assert!(lines[1].contains("○ CLOSED") && lines[1].contains("120ns"));
    assert!(lines[1].contains("web-1") && lines[1].contains("api.github.com:443"));
    assert!(lines[2].contains("● ACTIVE") && lines[2].contains("150ns"));
    let again = stream.take_drain_at(
        Some(&manager),
        &mut cache,
        &vec![],
        &vec![],
        &vec![(close_at(9, 160), "160ns".to_string()), (close_at(10, 170), "170ns".to_string())],
        START,
    );
    assert_eq!(again.len(), 1);
    assert!(again[0].contains("170ns"));
}

#[test]
fn rows_are_keyed_by_their_sockets() {
    let mut app = App::new(true, 5);
    let mut cache = cache();
    let connects = vec![connect_at(9, 1), connect_at(0, 2)];
    app.take_drain_at(None, &mut cache, &vec![], &connects, &vec![], START, START);
    assert_eq!(app.connections[0].key, "42:TCP:9");
    assert_eq!(app.connections[1].key, "42:TCP:20.207.73.85:443");
    app.take_drain_at(None, &mut cache, &vec![], &vec![], &vec![close_at(9, 3)], START, START);
    assert_eq!(closed_sockets(&app), vec![(9, true), (0, false)]);
}

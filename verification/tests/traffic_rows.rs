use dsnitch::addr::IpAddr;
use dsnitch::clock::Timestamp;
use dsnitch::docker::ContainerInfo;
use dsnitch::events::{ConnectEvent, SocketCloseEvent};
use dsnitch::stream::{header, stranger_line, CloseStep, Stream};
use dsnitch::traffic::{
    closed_endpoint, command_name, connection_row, destination_text, endpoint_text, origin,
    protocol_label,
};
use dsnitch::ui::{App, ConnectionStatus};

fn connect(skaddr: u64, proto: u8) -> ConnectEvent {
    let mut comm = [0u8; 16];
    comm[..4].copy_from_slice(b"curl");
    let mut daddr = [0u8; 16];
    daddr[..4].copy_from_slice(&[20, 207, 73, 85]);
    ConnectEvent {
        timestamp_ns: 1_500_000_000,
        cgroup_id: 42,
        skaddr,
        pid: 1,
        uid: 0,
        saddr: [0u8; 16],
        daddr,
        sport: 0,
        dport: 443,
        proto,
        ip_version: 4,
        comm,
    }
}

fn close(skaddr: u64) -> SocketCloseEvent {
    let opened = connect(skaddr, 6);
    SocketCloseEvent {
        timestamp_ns: 2_500_000_000,
        cgroup_id: 42,
        skaddr,
        saddr: [0u8; 16],
        daddr: opened.daddr,
        sport: 0,
        dport: 443,
        proto: 6,
        ip_version: 4,
    }
}

fn container() -> Option<ContainerInfo> {
    Some(ContainerInfo {
        id: "abc".to_string(),
        name: "web-1".to_string(),
        image: "nginx".to_string(),
        compose_service: Some("web".to_string()),
        compose_project: None,
        cgroup_id: 42,
        pid: 7,
    })
}

#[test]
fn protocols_have_labels() {
    assert_eq!(protocol_label(1), "ICMP");
    assert_eq!(protocol_label(6), "TCP");
    assert_eq!(protocol_label(17), "UDP");
    assert_eq!(protocol_label(58), "ICMPv6");
    assert_eq!(protocol_label(255), "RAW");
}

#[test]
fn endpoints_carry_ports_except_for_pings() {
    let v4 = IpAddr::v4(1, 2, 3, 4);
    let v6 = IpAddr::V6(1);
    assert_eq!(endpoint_text(v4, 6, 80), "1.2.3.4:80");
    assert_eq!(endpoint_text(v4, 1, 80), "1.2.3.4");
    assert_eq!(endpoint_text(v4, 58, 80), "1.2.3.4:80");
    assert_eq!(endpoint_text(v6, 6, 80), "[::1]:80");
    assert_eq!(endpoint_text(v6, 58, 80), "::1");
    assert_eq!(endpoint_text(v6, 1, 80), "[::1]:80");
    assert_eq!(closed_endpoint(&close(1)), "20.207.73.85:443");
}

#[test]
fn destinations_are_names_or_a_dash() {
    let name = Some("a.io".to_string());
    assert_eq!(destination_text(&name, 6, 443), "a.io:443");
    assert_eq!(destination_text(&name, 1, 443), "a.io");
    assert_eq!(destination_text(&name, 58, 443), "a.io");
    assert_eq!(destination_text(&None, 6, 443), "-");
}

#[test]
fn commands_lose_their_padding() {
    assert_eq!(command_name(&connect(1, 6).comm), "curl");
    assert_eq!(command_name(&[0u8; 16]), "");
    let mut odd = [0u8; 16];
    odd[1] = b'a';
    odd[3] = 0xff;
    odd[4] = b'b';
    assert_eq!(command_name(&odd), "a\0\u{fffd}b");
}

#[test]
fn rows_say_who_and_where() {
    let who = origin(&container(), "curl");
    let row = connection_row(
        &connect(9, 6),
        who,
        &Some("a.io".to_string()),
        "1.500s".to_string(),
        Timestamp { nanos: 5 },
    );
    assert_eq!(row.key, "42:TCP:9");
    assert_eq!(row.skaddr, 9);
    assert_eq!(row.time_str, "1.500s");
    assert_eq!(row.container_name, "web-1");
    assert_eq!(row.service, "web");
    assert_eq!(row.image, "nginx");
    assert_eq!(row.proto, "TCP");
    assert_eq!(row.destination, "a.io:443");
    assert_eq!(row.dst_ip_str, "20.207.73.85:443");
    assert!(row.is_docker);
    assert_eq!(row.cgroup_id, 42);
    assert_eq!(row.status, ConnectionStatus::Active);
    assert_eq!(row.closed_at, None);
    assert_eq!(row.last_seen, Timestamp { nanos: 5 });
}

#[test]
fn rows_without_a_socket_are_keyed_by_destination() {
    let who = origin(&None, "curl");
    let row = connection_row(
        &connect(0, 17),
        who,
        &None,
        String::new(),
        Timestamp { nanos: 0 },
    );
    assert_eq!(row.key, "42:UDP:20.207.73.85:443");
    assert_eq!(row.container_name, "[HOST]");
    assert_eq!(row.service, "-");
    assert_eq!(row.image, "curl");
    assert!(!row.is_docker);
}

#[test]
fn connections_reach_the_feed_and_the_list() {
    let mut app = App::new(false, 5);
    let now = Timestamp { nanos: 0 };
    app.show_connect_at(&connect(9, 6), &container(), &None, "1.500s".to_string(), now);
    assert_eq!(app.connections.len(), 1);
    assert_eq!(app.sorted_containers.len(), 1);
    assert_eq!(app.sorted_containers[0].name, "web-1");
    assert_eq!(app.sorted_containers[0].service, "web");
    assert_eq!(app.sorted_containers[0].conn_count, 1);
    assert_eq!(app.total_conns, 1);
    app.show_close(&close(9));
    assert_eq!(app.connections[0].status, ConnectionStatus::Closed);
}

#[test]
fn different_sockets_get_different_rows() {
    let mut app = App::new(true, 5);
    let now = Timestamp { nanos: 0 };
    app.show_connect_at(&connect(9, 6), &None, &None, String::new(), now);
    app.show_connect_at(&connect(10, 6), &None, &None, String::new(), now);
    app.show_connect_at(&connect(9, 6), &None, &None, String::new(), now);
    app.show_connect_at(&connect(0, 6), &None, &None, String::new(), now);
    assert_eq!(app.connections.len(), 3);
    assert!(app.containers.is_empty());
}

#[test]
fn destinations_without_sockets_get_their_own_rows() {
    let mut app = App::new(true, 5);
    let now = Timestamp { nanos: 0 };
    let here = connect(0, 17);
    let mut other_port = here;
    other_port.dport = 53;
    let mut other_address = here;
    other_address.daddr[3] = 86;
    let mut other_version = here;
    other_version.ip_version = 6;
    for event in [here, other_port, other_address, other_version, here] {
        app.show_connect_at(&event, &None, &None, String::new(), now);
    }
    assert_eq!(app.connections.len(), 4);
    let mut ping = connect(0, 1);
    app.show_connect_at(&ping, &None, &None, String::new(), now);
    ping.dport = 0;
    app.show_connect_at(&ping, &None, &None, String::new(), now);
    assert_eq!(app.connections.len(), 5);
}

#[test]
fn stream_header() {
    let (titles, rule) = header();
    assert_eq!(
        titles,
        format!(
            "{:<10} {:<12} {:<24} {:<16} {:<20} {:<6} {:<32} {:<24}",
            "STATUS",
            "TIME",
            "CONTAINER",
            "SERVICE",
            "IMAGE/PROCESS",
            "PROTO",
            "DESTINATION",
            "DST IP"
        ),
    );
    assert_eq!(rule, "─".repeat(150));
}

fn closed_line(container: &str, service: &str, image: &str, dst: &str) -> String {
    format!(
        "\x1b[90m{:<10} {:<12} {:<33} {:<16} {:<29} {:<6} {:<41} {:<24}\x1b[0m",
        "○ CLOSED", "2.500s", container, service, image, "TCP", dst, "20.207.73.85:443"
    )
}

#[test]
fn streamed_sockets_close_as_they_opened() {
    let mut stream = Stream::new(false);
    let line =
        stream.on_connect(&connect(9, 6), &container(), &Some("a.io".to_string()), "1.500s");
    assert_eq!(
        line,
        Some(format!(
            "\x1b[1;32m{:<10}\x1b[0m {:<12} {:<33} {:<16} {:<29} {:<6} {:<41} {:<24}",
            "● ACTIVE",
            "1.500s",
            "\x1b[1;32mweb-1\x1b[0m",
            "web",
            "nginx",
            "TCP",
            "\x1b[1;33ma.io:443\x1b[0m",
            "20.207.73.85:443"
        )),
    );
    match stream.on_close(&close(9), "2.500s") {
        CloseStep::Print { line } => assert_eq!(
            line,
            closed_line("\x1b[1;32mweb-1\x1b[0m", "web", "nginx", "\x1b[1;33ma.io:443\x1b[0m"),
        ),
        _ => panic!("not printed"),
    }
    assert!(matches!(stream.on_close(&close(9), "2.500s"), CloseStep::Skip));
}

#[test]
fn host_traffic_is_streamed_on_request() {
    let mut quiet = Stream::new(false);
    assert!(!quiet.shows(&None));
    assert!(quiet.shows(&container()));
    assert_eq!(quiet.on_connect(&connect(9, 6), &None, &None, "1.500s"), None);
    assert!(matches!(quiet.on_close(&close(9), "2.500s"), CloseStep::Skip));

    let mut loud = Stream::new(true);
    assert!(loud.shows(&None));
    assert_eq!(
        loud.on_connect(&connect(0, 6), &None, &None, "1.500s"),
        Some(format!(
            "\x1b[1;32m{:<10}\x1b[0m {:<12} {:<33} {:<16} {:<29} {:<6} {:<41} {:<24}",
            "● ACTIVE",
            "1.500s",
            "\x1b[90m[HOST]\x1b[0m",
            "-",
            "\x1b[90mcurl\x1b[0m",
            "TCP",
            "-",
            "20.207.73.85:443"
        )),
    );
    match loud.on_close(&close(0), "2.500s") {
        CloseStep::LookUp { ip } => assert_eq!(ip, IpAddr::v4(20, 207, 73, 85)),
        _ => panic!("not looked up"),
    }
}

#[test]
fn strangers_are_printed_as_host_traffic() {
    assert_eq!(
        stranger_line(&close(9), &Some("a.io".to_string()), "2.500s"),
        closed_line("\x1b[90m[HOST]\x1b[0m", "-", "-", "a.io:443"),
    );
    assert_eq!(
        stranger_line(&close(9), &None, "2.500s"),
        closed_line("\x1b[90m[HOST]\x1b[0m", "-", "-", "-"),
    );
}

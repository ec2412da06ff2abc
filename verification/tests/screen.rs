use dsnitch::clock::Timestamp;
use dsnitch::commands::{build_ebpf, build_outcome, run_outcome, run_userspace, use_tui};
use dsnitch::render::{render_ui, render_ui_at, row_segments, Color, Footer, Segment};
use dsnitch::ui::{App, ConnectionItem, ConnectionStatus, FocusedPane};

const START: Timestamp = Timestamp { nanos: 0 };

fn row(key: &str, destination: &str, proto: &str) -> ConnectionItem {
    ConnectionItem {
        key: key.to_string(),
        skaddr: 1,
        time_str: "1.000s".to_string(),
        container_name: "web-1".to_string(),
        service: "web".to_string(),
        image: "nginx".to_string(),
        proto: proto.to_string(),
        destination: destination.to_string(),
        dst_ip_str: "1.2.3.4:80".to_string(),
        is_docker: true,
        cgroup_id: 7,
        status: ConnectionStatus::Active,
        closed_at: None,
        last_seen: START,
    }
}

fn text(line: &[Segment]) -> String {
    line.iter().map(|s| s.text.as_str()).collect()
}

#[test]
fn header_counts() {
    let mut app = App::new(false, 5);
    app.update_container(7, "web-1".to_string(), "-".to_string(), "nginx".to_string());
    app.update_container(8, "db-1".to_string(), "-".to_string(), "pg".to_string());
    app.containers.get_mut(&8).unwrap().is_active = false;
    app.add_connection_at(row("a", "a.io:80", "TCP"), START);
    app.add_connection_at(row("b", "b.io:80", "TCP"), START);
    app.connections[0].status = ConnectionStatus::Closed;
    let screen = render_ui_at(&mut app, START, START);
    assert_eq!(
        text(&screen.header),
        " 🕵️ dsnitch  Docker Network & DNS Egress Inspector │ Active Containers: 1 (Total: 2) \
         │ Active Sockets: 1 │ Total Events: 2",
    );
    assert_eq!(screen.header[0].style.bg, Some(Color::Cyan));
    assert_eq!(screen.header[4].style.fg, Some(Color::Green));
}

#[test]
fn container_lines() {
    let mut app = App::new(false, 5);
    app.update_container(7, "web-1".to_string(), "web".to_string(), "nginx".to_string());
    app.update_container(8, "db-1".to_string(), "-".to_string(), "pg".to_string());
    app.add_connection_at(row("a", "a.io:80", "TCP"), START);
    app.sorted_containers[1].is_active = false;
    app.selected_cgroup_filter = Some(7);
    let pane = render_ui_at(&mut app, START, START).containers;
    assert_eq!(pane.title, " Containers (2) (FILTER ACTIVE - [Enter] clear) ");
    assert_eq!(pane.frame, Color::DarkGray);
    assert_eq!(pane.lines.len(), 2);
    assert_eq!(text(&pane.lines[0]), "● web-1 (web) [1 conns]");
    assert_eq!(pane.lines[0][1].style.fg, Some(Color::Yellow));
    assert!(pane.lines[0][1].style.bold);
    assert_eq!(text(&pane.lines[1]), "○ db-1 [0 conns]");
    assert_eq!(pane.lines[1][1].style.fg, Some(Color::DarkGray));
    app.selected_cgroup_filter = None;
    app.focused_pane = FocusedPane::Containers;
    let pane = render_ui_at(&mut app, START, START).containers;
    assert_eq!(pane.title, " Containers (2) ");
    assert_eq!(pane.frame, Color::Cyan);
    assert_eq!(pane.lines[0][1].style.fg, Some(Color::White));
}

#[test]
fn row_cells() {
    let cells = row_segments(&row("a", "a.io:80", "TCP"));
    let texts: Vec<&str> = cells.iter().map(|s| s.text.as_str()).collect();
    assert_eq!(
        texts,
        vec!["● ACTIVE", "1.000s", "web-1", "web", "nginx", "TCP", "a.io:80", "1.2.3.4:80"],
    );
    assert_eq!(cells[6].style.fg, Some(Color::Yellow));
    let mut host = row("a", "1.2.3.4:80", "UDP");
    host.is_docker = false;
    host.status = ConnectionStatus::Closed;
    let cells = row_segments(&host);
    assert_eq!(cells[0].text, "○ CLOSED");
    assert_eq!(cells[2].text, "[HOST]");
    assert_eq!(cells[5].style.fg, Some(Color::LightBlue));
    assert_eq!(cells[6].style.fg, Some(Color::DarkGray));
}

#[test]
fn names_stand_out_and_numbers_do_not() {
    for (destination, color) in [
        ("a.io:80", Color::Yellow),
        ("-", Color::Yellow),
        ("", Color::Yellow),
        ("9.9.9.9:80", Color::DarkGray),
        ("٣.io", Color::DarkGray),
        ("[::1]:80", Color::DarkGray),
    ] {
        let cells = row_segments(&row("a", destination, "TCP"));
        assert_eq!(cells[6].style.fg, Some(color));
    }
    for (proto, color) in [
        ("TCP", Color::LightGreen),
        ("UDP", Color::LightBlue),
        ("ICMP", Color::Magenta),
        ("ICMPv6", Color::Magenta),
        ("RAW", Color::DarkGray),
    ] {
        assert_eq!(row_segments(&row("a", "-", proto))[5].style.fg, Some(color));
    }
}

#[test]
fn the_table_is_bounded() {
    let mut app = App::new(false, 5);
    for i in 0..200 {
        app.add_connection_at(row(&format!("k{}", i), &format!("d{}", i), "TCP"), START);
    }
    let pane = render_ui_at(&mut app, START, START).connections;
    assert_eq!(pane.rows.len(), 150);
    assert_eq!(pane.rows[0][6].text, "d199");
    assert_eq!(pane.rows[149][6].text, "d50");
    assert_eq!(pane.title, " Live Egress Feed (150 shown, 5s grace) ");
    assert_eq!(pane.columns[7].text, "DST IP");
    app.search_query = "d19".to_string();
    let pane = render_ui_at(&mut app, START, START).connections;
    assert_eq!(pane.title, " Live Egress Feed (11 shown, 5s grace) (Filtered: \"d19\") ");
}

#[test]
fn footers() {
    let mut app = App::new(false, 5);
    match render_ui(&mut app).footer {
        Footer::Help { line } => assert_eq!(
            text(&line),
            " [q] Quit  [/] Filter  [Tab/←/→] Switch Pane  [↑/↓/j/k] Navigate  [Enter] Filter to \
             Container  [a] Host View (OFF)  [c] Clear  ",
        ),
        Footer::Search { .. } => panic!("searching"),
    }
    app.is_searching = true;
    app.search_query = "git".to_string();
    match render_ui(&mut app).footer {
        Footer::Search { bar } => {
            assert_eq!(bar.text, " Search Filter: git█ (Press [Enter] or [Esc] to commit)");
            assert_eq!(bar.style.bg, Some(Color::Yellow));
        }
        Footer::Help { .. } => panic!("not searching"),
    }
}

#[test]
fn drawing_prunes_first() {
    let mut app = App::new(false, 1);
    app.add_connection_at(row("a", "a.io:80", "TCP"), START);
    app.close_connection_at(1, "", START);
    let after = Timestamp { nanos: 2_000_000_000 };
    let screen = render_ui_at(&mut app, after, after);
    assert!(screen.connections.rows.is_empty());
    assert!(app.connections.is_empty());
}

#[test]
fn streaming_wins_over_the_screen() {
    assert!(!use_tui(true, true, true));
    assert!(!use_tui(true, false, true));
    assert!(use_tui(false, true, false));
    assert!(use_tui(false, false, true));
    assert!(!use_tui(false, false, false));
}

#[test]
fn build_arguments() {
    let args = build_ebpf(false);
    assert_eq!(
        args,
        vec![
            "+nightly",
            "build",
            "--manifest-path",
            "dsnitch-ebpf/Cargo.toml",
            "--target",
            "bpfel-unknown-none",
            "-Z",
            "build-std=core",
        ],
    );
    let released = build_ebpf(true);
    assert_eq!(released.len(), 9);
    assert_eq!(released[8], "--release");
}

#[test]
fn run_arguments() {
    assert_eq!(run_userspace(false, Vec::new()), vec!["run", "--package", "dsnitch"]);
    assert_eq!(
        run_userspace(true, vec!["-s".to_string(), "-a".to_string()]),
        vec!["run", "--package", "dsnitch", "--release", "--", "-s", "-a"],
    );
}

#[test]
fn failed_commands_are_reported() {
    assert_eq!(build_outcome(true, "exit status: 0"), Ok(()));
    assert_eq!(
        build_outcome(false, "exit status: 101"),
        Err("eBPF build failed with exit status: exit status: 101".to_string()),
    );
    assert_eq!(run_outcome(true, "exit status: 0"), Ok(()));
    assert_eq!(
        run_outcome(false, "exit status: 1"),
        Err("dsnitch exited with status: exit status: 1".to_string()),
    );
}

use dsnitch::clock::Timestamp;
use dsnitch::ui::{
    any_contains, App, ConnectionItem, ConnectionStatus, FocusedPane, KeyCode, KeyEvent,
};

const SECOND: i64 = 1_000_000_000;

fn at(seconds: i64) -> Timestamp {
    Timestamp { nanos: seconds * SECOND }
}

fn key(code: KeyCode) -> KeyEvent {
    KeyEvent { code, control: false }
}

fn make_test_connection(key: &str, skaddr: u64, cgroup_id: u64, proto: &str) -> ConnectionItem {
    ConnectionItem {
        key: key.to_string(),
        skaddr,
        time_str: "1.000s".to_string(),
        container_name: "test-container".to_string(),
        service: "web".to_string(),
        image: "alpine".to_string(),
        proto: proto.to_string(),
        destination: "example.com:80".to_string(),
        dst_ip_str: "93.184.216.34:80".to_string(),
        is_docker: true,
        cgroup_id,
        status: ConnectionStatus::Active,
        closed_at: None,
        last_seen: at(0),
    }
}

fn keys_of(app: &App) -> Vec<String> {
    app.connections.iter().map(|c| c.key.clone()).collect()
}

fn shown_keys(app: &App) -> Vec<String> {
    app.filtered_connections().iter().map(|c| c.key.clone()).collect()
}

fn names_of(app: &App) -> Vec<String> {
    app.sorted_containers.iter().map(|c| c.name.clone()).collect()
}

#[test]
fn test_app_add_and_close_by_skaddr() {
    let mut app = App::new(false, 5);
    let skaddr = 0xffff8801_12345678;

    let conn = make_test_connection("conn-1", skaddr, 100, "TCP");
    app.add_connection(conn);

    assert_eq!(app.connections.len(), 1);
    assert_eq!(app.connections[0].status, ConnectionStatus::Active);
    assert!(app.connections[0].closed_at.is_none());

    // Close using matching skaddr
    app.close_connection(skaddr, "93.184.216.34:80");

    assert_eq!(app.connections[0].status, ConnectionStatus::Closed);
    assert!(app.connections[0].closed_at.is_some());
}

#[test]
fn test_app_udp_inactivity_auto_close() {
    let mut app = App::new(false, 5);
    let mut conn = make_test_connection("conn-udp", 0, 100, "UDP");
    // Simulate 4 seconds of silence
    conn.last_seen = at(-4);
    app.add_connection(conn);
    // add_connection resets last_seen to now, manually adjust it for test
    app.connections[0].last_seen = at(-4);

    assert_eq!(app.connections[0].status, ConnectionStatus::Active);

    // Pruning cycle should auto-close UDP after 3s inactivity
    app.prune_expired();

    assert_eq!(app.connections[0].status, ConnectionStatus::Closed);
    assert!(app.connections[0].closed_at.is_some());
}

#[test]
fn test_app_prune_expired_grace_period() {
    let mut app = App::new(false, 2); // 2 second grace period
    let conn = make_test_connection("conn-closed", 0, 100, "TCP");
    app.add_connection(conn);

    // Mark as closed 5 seconds ago (past the 2s grace period)
    app.connections[0].status = ConnectionStatus::Closed;
    app.connections[0].closed_at = Some(at(-5));

    app.prune_expired();

    // Connection should be pruned
    assert!(app.connections.is_empty());
}

#[test]
fn test_app_max_connections_deque_limit() {
    let mut app = App::new(false, 5);
    app.max_connections = 5;

    for i in 0..10 {
        let key = format!("conn-{}", i);
        app.add_connection(make_test_connection(&key, i, 100, "TCP"));
    }

    assert_eq!(app.connections.len(), 5);
    // Newest connection should be at the back
    assert_eq!(app.connections.back().unwrap().key, "conn-9");
}

#[test]
fn test_app_container_locking() {
    let mut app = App::new(false, 5);
    app.update_container(
        101,
        "auth-service".to_string(),
        "auth".to_string(),
        "alpine".to_string(),
    );
    app.update_container(102, "web-service".to_string(), "web".to_string(), "nginx".to_string());

    assert_eq!(app.sorted_containers.len(), 2);

    // Lock to first container
    app.selected_cgroup_filter = Some(101);
    assert_eq!(app.selected_cgroup_filter, Some(101));

    // Unlock
    app.selected_cgroup_filter = None;
    assert_eq!(app.selected_cgroup_filter, None);
}

#[test]
fn a_new_app_is_empty() {
    let app = App::new(true, 9);
    assert!(app.connections.is_empty());
    assert!(app.containers.is_empty());
    assert!(app.sorted_containers.is_empty());
    assert_eq!(app.max_connections, 1000);
    assert_eq!(app.container_list_state.selected, Some(0));
    assert_eq!(app.table_state.selected, None);
    assert_eq!(app.selected_cgroup_filter, None);
    assert_eq!(app.search_query, "");
    assert!(!app.is_searching);
    assert_eq!(app.focused_pane, FocusedPane::Connections);
    assert!(app.show_host);
    assert_eq!(app.grace_period, 9);
    assert_eq!(app.total_conns, 0);
    assert!(app.running);
}

#[test]
fn a_seen_socket_is_refreshed_where_it_stands() {
    let mut app = App::new(false, 5);
    app.add_connection_at(make_test_connection("a", 1, 100, "TCP"), at(0));
    app.add_connection_at(make_test_connection("b", 2, 100, "TCP"), at(1));
    let mut again = make_test_connection("a", 1, 100, "TCP");
    again.destination = "other.io:80".to_string();
    again.time_str = "2.000s".to_string();
    app.add_connection_at(again, at(2));
    assert_eq!(app.connections.len(), 2);
    assert_eq!(app.total_conns, 3);
    let row = app.connections.iter().find(|c| c.key == "a").unwrap();
    assert_eq!(row.last_seen, at(2));
    assert_eq!(row.destination, "other.io:80");
    assert_eq!(row.time_str, "2.000s");
    assert_eq!(row.image, "alpine");
    assert_eq!(row.status, ConnectionStatus::Active);
    assert_eq!(row.closed_at, None);
}

#[test]
fn a_closed_socket_reopens_when_seen_again() {
    let mut app = App::new(false, 5);
    app.add_connection_at(make_test_connection("a", 1, 100, "TCP"), at(0));
    app.close_connection_at(1, "", at(1));
    assert_eq!(app.connections[0].closed_at, Some(at(1)));
    app.add_connection_at(make_test_connection("a", 1, 100, "TCP"), at(2));
    assert_eq!(app.connections.len(), 1);
    assert_eq!(app.connections[0].status, ConnectionStatus::Active);
    assert_eq!(app.connections[0].closed_at, None);
}

#[test]
fn closing_hits_no_other_socket() {
    let mut app = App::new(false, 5);
    app.add_connection_at(make_test_connection("a", 1, 100, "TCP"), at(0));
    app.add_connection_at(make_test_connection("b", 2, 100, "TCP"), at(0));
    app.close_connection_at(1, "93.184.216.34:80", at(1));
    assert_eq!(app.connections[0].status, ConnectionStatus::Closed);
    assert_eq!(app.connections[1].status, ConnectionStatus::Active);
    app.close_connection_at(1, "93.184.216.34:80", at(9));
    assert_eq!(app.connections[0].closed_at, Some(at(1)));
}

#[test]
fn a_closed_row_stays_for_the_grace_period() {
    let mut app = App::new(false, 2);
    app.add_connection_at(make_test_connection("a", 1, 100, "TCP"), at(0));
    app.close_connection_at(1, "", at(10));
    app.prune_expired_at(at(12), at(12));
    assert_eq!(app.connections.len(), 1);
    let after = Timestamp { nanos: 12 * SECOND + 1 };
    app.prune_expired_at(after, after);
    assert!(app.connections.is_empty());
}

#[test]
fn only_connectionless_rows_fall_silent() {
    let mut app = App::new(false, 5);
    for (name, proto) in [("t", "TCP"), ("u", "UDP"), ("i", "ICMP"), ("j", "ICMPv6"), ("r", "RAW")]
    {
        app.add_connection_at(make_test_connection(name, 0, 100, proto), at(0));
    }
    app.prune_expired_at(at(3), at(3));
    assert!(app.connections.iter().all(|c| c.status == ConnectionStatus::Active));
    let after = Timestamp { nanos: 3 * SECOND + 1 };
    app.prune_expired_at(after, after);
    let closed: Vec<&str> = app
        .connections
        .iter()
        .filter(|c| c.status == ConnectionStatus::Closed)
        .map(|c| c.key.as_str())
        .collect();
    assert_eq!(closed, vec!["u", "i", "j"]);
    assert_eq!(keys_of(&app).len(), 5);
}

#[test]
fn pruning_twice_is_pruning_once() {
    let mut app = App::new(false, 1);
    app.add_connection_at(make_test_connection("u", 0, 100, "UDP"), at(0));
    app.add_connection_at(make_test_connection("t", 1, 100, "TCP"), at(0));
    app.close_connection_at(1, "", at(1));
    app.prune_expired_at(at(10), at(10));
    let once = keys_of(&app);
    app.prune_expired_at(at(10), at(10));
    assert_eq!(keys_of(&app), once);
    assert_eq!(once, vec!["u".to_string()]);
}

#[test]
fn counters_grow_with_new_connections() {
    let mut app = App::new(false, 5);
    app.update_container(7, "web".to_string(), "-".to_string(), "nginx".to_string());
    assert_eq!(app.containers[&7].conn_count, 0);
    assert!(app.containers[&7].is_active);
    app.add_connection_at(make_test_connection("a", 1, 7, "TCP"), at(0));
    app.add_connection_at(make_test_connection("b", 2, 7, "TCP"), at(0));
    assert_eq!(app.containers[&7].conn_count, 2);
    app.update_container(7, "web2".to_string(), "svc".to_string(), "nginx:2".to_string());
    assert_eq!(app.containers[&7].conn_count, 2);
    assert_eq!(names_of(&app), vec!["web2".to_string()]);
    assert_eq!(app.total_conns, 2);
}

#[test]
fn containers_are_listed_by_activity_and_name() {
    let mut app = App::new(false, 5);
    for (id, name) in [(3, "web"), (1, "auth"), (2, "db")] {
        app.update_container(id, name.to_string(), "-".to_string(), "i".to_string());
    }
    assert_eq!(names_of(&app), vec!["auth".to_string(), "db".to_string(), "web".to_string()]);
    app.containers.get_mut(&1).unwrap().is_active = false;
    app.update_container(2, "db".to_string(), "-".to_string(), "i".to_string());
    assert_eq!(names_of(&app), vec!["db".to_string(), "web".to_string(), "auth".to_string()]);
}

#[test]
fn filters_let_through_what_they_should() {
    let mut app = App::new(false, 5);
    let mut host = make_test_connection("h", 1, 5, "TCP");
    host.is_docker = false;
    app.add_connection_at(host, at(0));
    app.add_connection_at(make_test_connection("a", 2, 100, "TCP"), at(0));
    let mut other = make_test_connection("b", 3, 101, "UDP");
    other.destination = "API.GitHub.com:443".to_string();
    app.add_connection_at(other, at(0));
    assert_eq!(shown_keys(&app), vec!["b".to_string(), "a".to_string()]);
    app.show_host = true;
    assert_eq!(shown_keys(&app), vec!["b".to_string(), "a".to_string(), "h".to_string()]);
    app.selected_cgroup_filter = Some(100);
    assert_eq!(shown_keys(&app), vec!["a".to_string()]);
    app.selected_cgroup_filter = None;
    app.search_query = "gIThUB".to_string();
    assert_eq!(shown_keys(&app), vec!["b".to_string()]);
    app.search_query = "no such text".to_string();
    assert!(shown_keys(&app).is_empty());
}

#[test]
fn search_looks_at_each_text() {
    let haystack = vec!["alpha".to_string(), "beta".to_string()];
    assert!(any_contains(&haystack, "lph"));
    assert!(any_contains(&haystack, "eta"));
    assert!(any_contains(&haystack, ""));
    assert!(!any_contains(&haystack, "gamma"));
    assert!(!any_contains(&Vec::new(), ""));
}

#[test]
fn typing_edits_the_query() {
    let mut app = App::new(false, 5);
    app.handle_key(key(KeyCode::Char('/')));
    assert!(app.is_searching);
    app.handle_key(key(KeyCode::Char('q')));
    app.handle_key(key(KeyCode::Char('é')));
    assert_eq!(app.search_query, "qé");
    assert!(app.running);
    app.handle_key(key(KeyCode::Backspace));
    assert_eq!(app.search_query, "q");
    app.handle_key(key(KeyCode::Enter));
    assert!(!app.is_searching);
    assert_eq!(app.search_query, "q");
    app.handle_key(key(KeyCode::Esc));
    assert_eq!(app.search_query, "");
}

#[test]
fn quit_keys_stop() {
    let mut app = App::new(false, 5);
    app.handle_key(key(KeyCode::Char('c')));
    assert!(app.running);
    app.handle_key(key(KeyCode::Char('q')));
    assert!(!app.running);
    let mut app = App::new(false, 5);
    app.handle_key(KeyEvent { code: KeyCode::Char('c'), control: true });
    assert!(!app.running);
}

#[test]
fn toggles_undo_themselves() {
    let mut app = App::new(false, 5);
    app.handle_key(key(KeyCode::Char('a')));
    assert!(app.show_host);
    app.handle_key(key(KeyCode::Char('a')));
    assert!(!app.show_host);
    app.handle_key(key(KeyCode::Tab));
    assert_eq!(app.focused_pane, FocusedPane::Containers);
    app.handle_key(key(KeyCode::Tab));
    assert_eq!(app.focused_pane, FocusedPane::Connections);
    app.handle_key(key(KeyCode::Left));
    assert_eq!(app.focused_pane, FocusedPane::Containers);
    app.handle_key(key(KeyCode::Right));
    assert_eq!(app.focused_pane, FocusedPane::Connections);
}

#[test]
fn clear_empties_the_feed() {
    let mut app = App::new(false, 5);
    app.add_connection_at(make_test_connection("a", 2, 100, "TCP"), at(0));
    app.handle_key(key(KeyCode::Char('c')));
    assert!(app.connections.is_empty());
}

#[test]
fn enter_locks_and_releases() {
    let mut app = App::new(false, 5);
    app.update_container(101, "auth".to_string(), "-".to_string(), "i".to_string());
    app.update_container(102, "web".to_string(), "-".to_string(), "i".to_string());
    app.handle_key(key(KeyCode::Enter));
    assert_eq!(app.selected_cgroup_filter, None);
    app.handle_key(key(KeyCode::Left));
    app.handle_key(key(KeyCode::Down));
    assert_eq!(app.container_list_state.selected, Some(1));
    app.handle_key(key(KeyCode::Enter));
    assert_eq!(app.selected_cgroup_filter, Some(102));
    app.handle_key(key(KeyCode::Enter));
    assert_eq!(app.selected_cgroup_filter, None);
}

#[test]
fn moving_stays_on_the_list() {
    let mut app = App::new(false, 5);
    app.update_container(101, "auth".to_string(), "-".to_string(), "i".to_string());
    app.update_container(102, "web".to_string(), "-".to_string(), "i".to_string());
    app.handle_key(key(KeyCode::Left));
    for _ in 0..5 {
        app.handle_key(key(KeyCode::Char('j')));
        assert!(app.container_list_state.selected.unwrap() < 2);
    }
    for _ in 0..5 {
        app.handle_key(key(KeyCode::Char('k')));
        assert!(app.container_list_state.selected.unwrap() < 2);
    }
    assert_eq!(app.container_list_state.selected, Some(0));
}

#[test]
fn moving_in_the_feed_starts_at_its_first_row() {
    let mut app = App::new(false, 5);
    app.handle_key(key(KeyCode::Down));
    assert_eq!(app.table_state.selected, None);
    app.add_connection_at(make_test_connection("a", 2, 100, "TCP"), at(0));
    app.add_connection_at(make_test_connection("b", 3, 100, "TCP"), at(0));
    app.handle_key(key(KeyCode::Down));
    assert_eq!(app.table_state.selected, Some(0));
    app.handle_key(key(KeyCode::Down));
    app.handle_key(key(KeyCode::Down));
    assert_eq!(app.table_state.selected, Some(1));
    app.handle_key(key(KeyCode::Up));
    app.handle_key(key(KeyCode::Up));
    assert_eq!(app.table_state.selected, Some(0));
}

#[test]
fn a_report_with_a_socket_never_closes_by_destination() {
    let mut app = App::new(false, 5);
    app.add_connection_at(make_test_connection("udp", 0, 100, "UDP"), at(0));
    app.add_connection_at(make_test_connection("tcp", 77, 100, "TCP"), at(0));
    app.close_connection_at(77, "93.184.216.34:80", at(1));
    assert_eq!(app.connections[0].status, ConnectionStatus::Active);
    assert_eq!(app.connections[0].closed_at, None);
    assert_eq!(app.connections[1].status, ConnectionStatus::Closed);
    app.close_connection_at(78, "93.184.216.34:80", at(2));
    assert_eq!(app.connections[0].status, ConnectionStatus::Active);
    assert_eq!(app.connections[1].closed_at, Some(at(1)));
}

#[test]
fn a_report_without_a_socket_closes_by_destination() {
    let mut app = App::new(false, 5);
    app.add_connection_at(make_test_connection("a", 0, 100, "TCP"), at(0));
    let mut other = make_test_connection("b", 0, 100, "TCP");
    other.dst_ip_str = "1.1.1.1:80".to_string();
    app.add_connection_at(other, at(0));
    app.close_connection_at(0, "93.184.216.34:80", at(1));
    assert_eq!(app.connections[0].status, ConnectionStatus::Closed);
    assert_eq!(app.connections[1].status, ConnectionStatus::Active);
}

#[test]
fn equals_in_the_list_agree() {
    let mut app = App::new(false, 5);
    for id in [4, 2, 9] {
        app.update_container(id, "same".to_string(), "-".to_string(), "i".to_string());
    }
    assert!(app.sorted_containers.iter().all(|c| c.name == "same" && c.conn_count == 0));
    assert_eq!(app.sorted_containers.len(), 3);
}

#[test]
fn enter_moves_the_lock() {
    let mut app = App::new(false, 5);
    app.update_container(101, "auth".to_string(), "-".to_string(), "i".to_string());
    app.update_container(102, "web".to_string(), "-".to_string(), "i".to_string());
    app.selected_cgroup_filter = Some(102);
    app.handle_key(key(KeyCode::Left));
    app.handle_key(key(KeyCode::Enter));
    assert_eq!(app.selected_cgroup_filter, Some(101));
    app.handle_key(key(KeyCode::Enter));
    assert_eq!(app.selected_cgroup_filter, None);
}

#[test]
fn a_feed_without_room_keeps_the_newest_row() {
    let mut app = App::new(false, 5);
    app.max_connections = 0;
    app.add_connection_at(make_test_connection("a", 1, 100, "TCP"), at(0));
    app.add_connection_at(make_test_connection("b", 2, 100, "TCP"), at(0));
    assert_eq!(keys_of(&app), vec!["b".to_string()]);
}

#[test]
fn without_grace_a_silent_row_is_dropped_at_once() {
    let mut app = App::new(false, 0);
    app.add_connection_at(make_test_connection("u", 0, 100, "UDP"), at(0));
    app.add_connection_at(make_test_connection("t", 7, 100, "TCP"), at(0));
    app.prune_expired_at(at(4), Timestamp { nanos: 4 * SECOND + 1 });
    assert_eq!(keys_of(&app), vec!["t".to_string()]);
    app.close_connection_at(7, "", at(5));
    app.prune_expired_at(at(5), at(5));
    assert_eq!(keys_of(&app), vec!["t".to_string()]);
    app.prune_expired_at(at(5), Timestamp { nanos: 5 * SECOND + 1 });
    assert!(app.connections.is_empty());
}

use dsnitch::docker::{
    event_filters, listener_step, resolve_cgroup_id, search_dirs, started_message,
    stopped_message, Discovered, DockerManager, InspectError, InspectedContainer, ListenerStep,
    Stopped, INSPECT_DELAY_MS, RETRY_DELAY_MS,
};

fn inspected(name: &str) -> InspectedContainer {
    InspectedContainer {
        name: Some(name.to_string()),
        image: Some("nginx:1".to_string()),
        labels: Some(vec![
            ("other".to_string(), "x".to_string()),
            ("com.docker.compose.service".to_string(), "web".to_string()),
            ("com.docker.compose.project".to_string(), "shop".to_string()),
        ]),
        pid: Some(321),
    }
}

#[test]
fn an_inspected_container_is_found() {
    let mut manager = DockerManager::new();
    assert!(manager.lookup(9).is_none());
    let info = match manager.inspect_and_cache("abc", &Some(inspected("/web-1")), Some(9)) {
        Ok(info) => info,
        Err(_) => panic!("not taken in"),
    };
    assert_eq!(info.id, "abc");
    assert_eq!(info.name, "web-1");
    assert_eq!(info.image, "nginx:1");
    assert_eq!(info.compose_service, Some("web".to_string()));
    assert_eq!(info.compose_project, Some("shop".to_string()));
    assert_eq!(info.cgroup_id, 9);
    assert_eq!(info.pid, 321);
    assert_eq!(manager.lookup(9).unwrap().name, "web-1");
    assert!(manager.lookup(8).is_none());
}

#[test]
fn missing_details_have_defaults() {
    let mut manager = DockerManager::new();
    let bare = InspectedContainer { name: None, image: None, labels: None, pid: None };
    assert_eq!(bare.first_pid(), 0);
    let info = match manager.inspect_and_cache("abc", &Some(bare), Some(9)) {
        Ok(info) => info,
        Err(_) => panic!("not taken in"),
    };
    assert_eq!(info.name, "abc");
    assert_eq!(info.image, "unknown");
    assert_eq!(info.compose_service, None);
    assert_eq!(info.compose_project, None);
    assert_eq!(info.pid, 0);
}

#[test]
fn containers_that_do_not_answer_are_reported() {
    let mut manager = DockerManager::new();
    match manager.inspect_and_cache("abc", &None, Some(9)) {
        Err(error) => {
            assert!(matches!(error, InspectError::NotInspected { .. }));
            assert_eq!(error.message(), "Failed to inspect container abc");
        }
        Ok(_) => panic!("taken in"),
    }
    match manager.inspect_and_cache("abc", &Some(inspected("/web-1")), None) {
        Err(error) => {
            assert!(matches!(error, InspectError::NoCgroup { .. }));
            assert_eq!(
                error.message(),
                "Could not resolve cgroup_id for container web-1 (PID: 321)",
            );
        }
        Ok(_) => panic!("taken in"),
    }
    assert!(manager.lookup(9).is_none());
}

#[test]
fn a_stopped_container_is_forgotten_once() {
    let mut manager = DockerManager::new();
    let _ = manager.inspect_and_cache("abc", &Some(inspected("/web-1")), Some(9));
    let _ = manager.inspect_and_cache("def", &Some(inspected("/db-1")), Some(10));
    let stopped = manager.forget("abc").unwrap();
    assert_eq!(stopped.cgroup_id, 9);
    assert_eq!(
        stopped_message(&stopped),
        Some("[DOCKER] Container stopped: web-1 (cgroup: 9)".to_string()),
    );
    assert!(manager.lookup(9).is_none());
    assert_eq!(manager.lookup(10).unwrap().name, "db-1");
    assert!(manager.forget("abc").is_none());
    assert!(manager.forget("xyz").is_none());
    assert_eq!(stopped_message(&Stopped { cgroup_id: 3, info: None }), None);
}

#[test]
fn syncing_counts_what_was_taken_in() {
    let mut manager = DockerManager::new();
    let found = vec![
        Discovered {
            id: Some("a".to_string()),
            reply: Some(inspected("/one")),
            cgroup_id: Some(1),
        },
        Discovered { id: None, reply: Some(inspected("/two")), cgroup_id: Some(2) },
        Discovered { id: Some("c".to_string()), reply: None, cgroup_id: Some(3) },
        Discovered {
            id: Some("d".to_string()),
            reply: Some(inspected("/four")),
            cgroup_id: None,
        },
        Discovered {
            id: Some("e".to_string()),
            reply: Some(inspected("/five")),
            cgroup_id: Some(5),
        },
    ];
    assert_eq!(manager.sync_running_containers(&found), 2);
    assert_eq!(manager.lookup(1).unwrap().name, "one");
    assert!(manager.lookup(2).is_none());
    assert!(manager.lookup(3).is_none());
    assert_eq!(manager.lookup(5).unwrap().name, "five");
}

fn step(action: Option<&str>, id: Option<&str>) -> ListenerStep {
    listener_step(&action.map(|a| a.to_string()), &id.map(|i| i.to_string()))
}

#[test]
fn events_are_acted_on() {
    for action in ["start", "unpause"] {
        match step(Some(action), Some("abc")) {
            ListenerStep::Inspect { id } => assert_eq!(id, "abc"),
            _ => panic!("not inspected"),
        }
    }
    for action in ["die", "destroy", "stop", "kill"] {
        match step(Some(action), Some("abc")) {
            ListenerStep::Forget { id } => assert_eq!(id, "abc"),
            _ => panic!("not forgotten"),
        }
    }
    assert!(matches!(step(Some("pause"), Some("abc")), ListenerStep::Ignore));
    assert!(matches!(step(Some("start"), Some("")), ListenerStep::Ignore));
    assert!(matches!(step(Some("start"), None), ListenerStep::Ignore));
    assert!(matches!(step(None, Some("abc")), ListenerStep::Ignore));
}

#[test]
fn subscription_lists_what_is_acted_on() {
    let filters = event_filters();
    assert_eq!(filters.len(), 2);
    assert_eq!(filters[0], ("type".to_string(), vec!["container".to_string()]));
    assert_eq!(filters[1].0, "event");
    assert_eq!(filters[1].1, vec!["start", "die", "destroy", "stop", "kill", "unpause"]);
    for action in &filters[1].1 {
        assert!(!matches!(step(Some(action.as_str()), Some("abc")), ListenerStep::Ignore));
    }
    assert_eq!(INSPECT_DELAY_MS, 50);
    assert_eq!(RETRY_DELAY_MS, 1000);
}

#[test]
fn started_containers_are_reported() {
    let mut manager = DockerManager::new();
    let info = match manager.inspect_and_cache("abc", &Some(inspected("//web-1")), Some(9)) {
        Ok(info) => info,
        Err(_) => panic!("not taken in"),
    };
    assert_eq!(
        started_message(&info),
        "[DOCKER] Container started: web-1 (image: nginx:1, cgroup: 9)",
    );
}

#[test]
fn listed_directories_come_before_the_usual_ones() {
    let file = "12:memory:/x\n0::/system.slice/y.scope\r\n0::/z".to_string();
    assert_eq!(
        search_dirs(&Some(file), "id"),
        vec![
            "/sys/fs/cgroup/system.slice/y.scope",
            "/sys/fs/cgroup/z",
            "/sys/fs/cgroup/system.slice/docker-id.scope",
            "/sys/fs/cgroup/docker/id",
            "/sys/fs/cgroup/docker-id.scope",
            "/sys/fs/cgroup/docker.slice/docker-id.scope",
        ],
    );
    assert_eq!(search_dirs(&None, "id").len(), 4);
}

#[test]
fn control_groups_are_found_through_the_process() {
    let read = |path: &String| {
        if path == "/proc/42/cgroup" {
            Some("0::/a\n0::/b\n".to_string())
        } else {
            None
        }
    };
    let inode = |path: &String| match path.as_str() {
        "/sys/fs/cgroup/b" => Some(11),
        "/sys/fs/cgroup/docker/id" => Some(22),
        _ => None,
    };
    assert_eq!(resolve_cgroup_id(42, "id", read, inode), Some(11));
    assert_eq!(resolve_cgroup_id(43, "id", read, inode), Some(22));
    assert_eq!(resolve_cgroup_id(43, "other", read, inode), None);
}

#[test]
fn no_process_means_no_list_to_read() {
    let read = |_path: &String| Some("0::/a\n".to_string());
    let inode = |path: &String| if path == "/sys/fs/cgroup/a" { Some(11) } else { None };
    assert_eq!(resolve_cgroup_id(0, "id", read, inode), None);
    assert_eq!(resolve_cgroup_id(-1, "id", read, inode), None);
    assert_eq!(resolve_cgroup_id(1, "id", read, inode), Some(11));
}

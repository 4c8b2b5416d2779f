use spinup::config::{Server, ServerConfigError};
use spinup::order::{determine_wakeup_order, parse_server_dependencies};

fn server_with_deps(name: &str, mac: &str, interface: &str, vlan: Option<u16>, deps: &[&str]) -> Server {
    Server {
        name: name.to_string(),
        mac: mac.to_string(),
        interface: interface.to_string(),
        vlan,
        depends: deps.iter().map(|d| d.to_string()).collect(),
        check: Vec::new(),
    }
}

#[test]
fn test_circular_dependencies() {
    let servers = vec![
        server_with_deps("server1", "00:11:22:33:44:55", "eth0", Some(100), &["server2"]),
        server_with_deps("server2", "66:77:88:99:AA:BB", "eth0", Some(100), &["server3"]),
        server_with_deps("server3", "AA:BB:CC:DD:EE:FF", "eth1", Some(200), &["server4"]),
        server_with_deps("server4", "FF:EE:DD:CC:BB:AA", "eth1", Some(200), &["server1"]),
    ];

    let result = determine_wakeup_order(&servers);
    match result {
        Err(ServerConfigError::CircularDependency(circular_server)) => {
            assert_eq!(circular_server, "server1".to_string());
        }
        _ => panic!("Expected a circular dependency error"),
    }
}

#[test]
fn test_no_circular_dependencies_with() {
    let servers = vec![
        server_with_deps("server1", "00:11:22:33:44:55", "eth0", Some(100), &["server2"]),
        server_with_deps("server2", "66:77:88:99:AA:BB", "eth0", Some(100), &["server3"]),
        server_with_deps("server3", "AA:BB:CC:DD:EE:FF", "eth1", Some(200), &[]),
    ];

    let result = determine_wakeup_order(&servers);

    assert!(result.is_ok(), "Expected no circular dependencies");
}

#[test]
fn test_determine_wakeup_order() {
    let servers = vec![
        server_with_deps("server_a", "00:11:22:33:44:55", "eth0", None, &["server_b", "server_c"]),
        server_with_deps("server_b", "11:22:33:44:55:66", "eth0", None, &["server_c"]),
        server_with_deps("server_c", "22:33:44:55:66:77", "eth0", None, &[]),
    ];

    let expected_order = vec!["server_c", "server_b", "server_a"];

    let result = determine_wakeup_order(&servers).expect("Failed to determine wakeup order");

    assert_eq!(
        result.into_iter().map(|s| s.name).collect::<Vec<String>>(),
        expected_order
    );
}

#[test]
fn test_undefined_dependency_is_reported() {
    let servers = vec![
        server_with_deps("server1", "00:11:22:33:44:55", "eth0", None, &["ghost"]),
    ];

    match determine_wakeup_order(&servers) {
        Err(ServerConfigError::UndefinedDependency(name)) => {
            assert_eq!(name, "ghost".to_string());
        }
        _ => panic!("Expected an undefined dependency error"),
    }
}

#[test]
fn test_self_dependency_is_circular() {
    let servers = vec![
        server_with_deps("server1", "00:11:22:33:44:55", "eth0", None, &["server1"]),
    ];

    match determine_wakeup_order(&servers) {
        Err(ServerConfigError::CircularDependency(name)) => {
            assert_eq!(name, "server1".to_string());
        }
        _ => panic!("Expected a circular dependency error"),
    }
}

#[test]
fn test_independent_servers_keep_input_order() {
    let servers = vec![
        server_with_deps("alpha", "00:11:22:33:44:55", "eth0", None, &[]),
        server_with_deps("beta", "11:22:33:44:55:66", "eth0", None, &[]),
        server_with_deps("gamma", "22:33:44:55:66:77", "eth0", None, &[]),
    ];

    let result = determine_wakeup_order(&servers).expect("acyclic set must resolve");
    let names: Vec<String> = result.into_iter().map(|s| s.name).collect();
    assert_eq!(names, vec!["alpha", "beta", "gamma"]);
}

#[test]
fn test_parse_server_dependencies_sorts_and_validates() {
    let mut first = server_with_deps("db", "00:11:22:33:44:55", "eth0", None, &[]);
    first.check = vec![spinup::config::HealthCheck::Port {
        ip: "192.168.1.1".to_string(),
        port: 5432,
        retry: spinup::config::default_duration(),
        timeout: 60_000,
    }];
    let web = server_with_deps("web", "11:22:33:44:55:66", "eth0", None, &["db"]);

    let order = parse_server_dependencies(vec![web, first]).expect("valid set must parse");
    let names: Vec<String> = order.into_iter().map(|s| s.name).collect();
    assert_eq!(names, vec!["db", "web"]);
}

#[test]
fn test_parse_server_dependencies_rejects_bad_check() {
    let mut srv = server_with_deps("web", "00:11:22:33:44:55", "eth0", None, &[]);
    srv.check = vec![spinup::config::HealthCheck::Port {
        ip: "invalid_ip".to_string(),
        port: 80,
        retry: spinup::config::default_duration(),
        timeout: 60_000,
    }];

    match parse_server_dependencies(vec![srv]) {
        Err(ServerConfigError::BadHealthCheckDefinition(_)) => {}
        _ => panic!("Expected a health check definition error"),
    }
}

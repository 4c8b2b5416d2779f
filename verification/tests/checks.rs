use spinup::config::{default_duration, validate_health_check, HealthCheck, ServerConfigError};
use spinup::health::{check_health, check_wait, CheckEngine, CheckStatus, ProbeReply};
use spinup::ip::is_valid_ip;

fn http_check(status: Option<u16>, regex: Option<&str>) -> HealthCheck {
    HealthCheck::Http {
        url: "http://example.com".to_string(),
        status,
        retry: default_duration(),
        timeout: 60_000,
        regex: regex.map(|r| r.to_string()),
    }
}

fn shell_check(status: Option<i32>, regex: Option<&str>) -> HealthCheck {
    HealthCheck::Shell {
        command: "echo Hello".to_string(),
        retry: default_duration(),
        timeout: 60_000,
        status,
        regex: regex.map(|r| r.to_string()),
    }
}

fn port_check(ip: &str, port: u16) -> HealthCheck {
    HealthCheck::Port {
        ip: ip.to_string(),
        port,
        retry: default_duration(),
        timeout: 60_000,
    }
}

#[test]
fn test_invalid_http_check() {
    let check = http_check(None, None);
    let result = validate_health_check(&check);
    assert!(matches!(
        result,
        Err(ServerConfigError::BadHealthCheckDefinition(_))
    ));
}

#[test]
fn test_invalid_shell_check() {
    let check = HealthCheck::Shell {
        command: "curl something".to_string(),
        retry: 120_000,
        timeout: 60_000,
        status: None,
        regex: None,
    };
    let result = validate_health_check(&check);
    assert!(matches!(
        result,
        Err(ServerConfigError::BadHealthCheckDefinition(_))
    ));
}

#[test]
fn test_invalid_port_check() {
    let check = port_check("invalid_ip", 80);
    let result = validate_health_check(&check);
    assert!(matches!(
        result,
        Err(ServerConfigError::BadHealthCheckDefinition(_))
    ));
}

#[test]
fn test_valid_health_checks() {
    let checks = vec![
        http_check(Some(200), None),
        port_check("192.168.1.1", 80),
        shell_check(None, Some("Hello")),
    ];
    for healthcheck in &checks {
        let result = validate_health_check(healthcheck);
        assert!(result.is_ok())
    }
}

#[test]
fn test_ipv4_literals() {
    assert!(is_valid_ip("192.168.1.1"));
    assert!(is_valid_ip("0.0.0.0"));
    assert!(is_valid_ip("255.255.255.255"));
    assert!(!is_valid_ip("invalid_ip"));
    assert!(!is_valid_ip("256.1.1.1"));
    assert!(!is_valid_ip("01.1.1.1"));
    assert!(!is_valid_ip("1.2.3"));
    assert!(!is_valid_ip("1.2.3.4.5"));
    assert!(!is_valid_ip("1.2.3."));
    assert!(!is_valid_ip(""));
}

#[test]
fn test_ipv6_literals() {
    assert!(is_valid_ip("::"));
    assert!(is_valid_ip("::1"));
    assert!(is_valid_ip("fe80::"));
    assert!(is_valid_ip("1:2:3:4:5:6:7:8"));
    assert!(is_valid_ip("2001:db8::8a2e:370:7334"));
    assert!(is_valid_ip("::ffff:192.168.1.1"));
    assert!(is_valid_ip("1:2:3:4:5:6:1.2.3.4"));
    assert!(is_valid_ip("1:2:3:4:5:6:7::"));
    assert!(!is_valid_ip("1::2::3"));
    assert!(!is_valid_ip("12345::"));
    assert!(!is_valid_ip(":::"));
    assert!(!is_valid_ip("1:2:3:4:5:6:7:8:9"));
    assert!(!is_valid_ip("1:2:3:4:5:6:7:8::"));
    assert!(!is_valid_ip("g::1"));
    assert!(!is_valid_ip("1:2"));
    assert!(!is_valid_ip("1:2:3:4:5:6:7:"));
    assert!(!is_valid_ip(":1:2:3:4:5:6:7"));
}

#[test]
fn test_http_health_decision() {
    let check = http_check(Some(200), None);
    let ok = ProbeReply::HttpReply { status: 200, body: None };
    let wrong = ProbeReply::HttpReply { status: 503, body: None };
    assert!(check_health(&check, &ok));
    assert!(!check_health(&check, &wrong));
    assert!(!check_health(&check, &ProbeReply::HttpFailed));
}

#[test]
fn test_http_body_regex_decision() {
    let check = http_check(None, Some("ready"));
    let matching = ProbeReply::HttpReply {
        status: 200,
        body: Some("service ready now".to_string()),
    };
    let not_matching = ProbeReply::HttpReply {
        status: 200,
        body: Some("starting up".to_string()),
    };
    let no_body = ProbeReply::HttpReply { status: 200, body: None };
    assert!(check_health(&check, &matching));
    assert!(!check_health(&check, &not_matching));
    assert!(!check_health(&check, &no_body));
}

#[test]
fn test_port_health_decision() {
    let check = port_check("192.168.1.1", 80);
    assert!(check_health(&check, &ProbeReply::PortConnected));
    assert!(!check_health(&check, &ProbeReply::PortUnreachable));
}

#[test]
fn test_shell_health_decision() {
    let check = shell_check(Some(0), Some("Hello"));
    let ok = ProbeReply::ShellDone {
        code: Some(0),
        stdout: "Hello World".to_string(),
    };
    let wrong_code = ProbeReply::ShellDone {
        code: Some(1),
        stdout: "Hello World".to_string(),
    };
    let wrong_output = ProbeReply::ShellDone {
        code: Some(0),
        stdout: "Goodbye".to_string(),
    };
    assert!(check_health(&check, &ok));
    assert!(!check_health(&check, &wrong_code));
    assert!(!check_health(&check, &wrong_output));
    assert!(!check_health(&check, &ProbeReply::ShellFailed));
}

#[test]
fn test_invalid_regex_never_matches() {
    let check = shell_check(None, Some("("));
    let reply = ProbeReply::ShellDone {
        code: Some(0),
        stdout: "(".to_string(),
    };
    assert!(!check_health(&check, &reply));
}

#[test]
fn test_default_duration_is_ten_seconds() {
    assert_eq!(default_duration(), 10_000);
}

#[test]
fn test_check_wait_returns_retry_interval() {
    let check = HealthCheck::Port {
        ip: "127.0.0.1".to_string(),
        port: 22,
        retry: 2_500,
        timeout: 60_000,
    };
    assert_eq!(check_wait(&check), 2_500);
}

#[test]
fn test_check_engine_times_out_at_budget() {
    let check = HealthCheck::Port {
        ip: "127.0.0.1".to_string(),
        port: 22,
        retry: 50,
        timeout: 200,
    };
    let mut engine = CheckEngine::new(&check);
    assert_eq!(engine.status, CheckStatus::Waiting);
    engine.start();
    assert_eq!(engine.status, CheckStatus::Running);
    assert!(engine.poll(0));
    assert!(!engine.record_attempt(false));
    assert!(engine.poll(199));
    assert!(!engine.record_attempt(false));
    assert!(!engine.poll(200));
    assert_eq!(engine.status, CheckStatus::TimedOut);
    assert!(engine.settled());
}

#[test]
fn test_check_engine_settles_healthy() {
    let check = HealthCheck::Port {
        ip: "127.0.0.1".to_string(),
        port: 22,
        retry: 50,
        timeout: 200,
    };
    let mut engine = CheckEngine::new(&check);
    engine.start();
    assert!(engine.poll(50));
    assert!(engine.record_attempt(true));
    assert_eq!(engine.status, CheckStatus::Healthy);
    assert!(engine.settled());
}

use spinup::config::{HealthCheck, Server};
use spinup::health::{CheckEngine, CheckStatus};
use spinup::orchestrator::{Action, Orchestrator, ServerStatus};

fn probe(ip: &str, retry: u64, timeout: u64) -> HealthCheck {
    HealthCheck::Port {
        ip: ip.to_string(),
        port: 22,
        retry,
        timeout,
    }
}

fn plain_server(name: &str, checks: Vec<HealthCheck>) -> Server {
    Server {
        name: name.to_string(),
        mac: "00:11:22:33:44:55".to_string(),
        interface: "eth0".to_string(),
        vlan: None,
        depends: Vec::new(),
        check: checks,
    }
}

#[test]
fn test_fan_in_waits_for_all_checks() {
    // one check succeeds at t=50ms, its sibling times out at t=200ms; the
    // aggregate appears only after both settle, and is timed out
    let fast = probe("127.0.0.1", 10, 1_000);
    let slow = probe("127.0.0.2", 10, 200);
    let order = vec![plain_server("server1", vec![fast.clone(), slow.clone()])];

    let mut orch = Orchestrator::new(&order);
    assert!(matches!(orch.next_action(), Action::SendFrame { server: 0 }));
    orch.frame_sent();

    let mut fast_engine = CheckEngine::new(&fast);
    fast_engine.start();
    assert!(fast_engine.poll(50));
    assert!(fast_engine.record_attempt(true));
    orch.check_settled(0, true);

    // the fast check has settled, but the aggregate is still pending
    assert_eq!(orch.servers[0].status, ServerStatus::WolSent);
    assert!(matches!(orch.next_action(), Action::AwaitChecks { server: 0 }));

    let mut slow_engine = CheckEngine::new(&slow);
    slow_engine.start();
    assert!(slow_engine.poll(0));
    assert!(!slow_engine.record_attempt(false));
    assert!(!slow_engine.poll(200));
    assert_eq!(slow_engine.status, CheckStatus::TimedOut);
    orch.check_settled(1, false);

    let timed_out = orch.finalize_server();
    assert!(timed_out);
    assert_eq!(orch.servers[0].status, ServerStatus::TimedOut);
    assert_eq!(orch.servers[0].checks, vec![CheckStatus::Healthy, CheckStatus::TimedOut]);
    assert!(matches!(orch.next_action(), Action::Aborted { server: 0 }));
}

#[test]
fn test_sequential_wake_order() {
    // B depends on A: B's frame is never sent before all of A's checks
    // have settled
    let check_a = probe("127.0.0.1", 10, 1_000);
    let order = vec![
        plain_server("server_a", vec![check_a]),
        plain_server("server_b", Vec::new()),
    ];

    let mut orch = Orchestrator::new(&order);

    assert!(matches!(orch.next_action(), Action::SendFrame { server: 0 }));
    orch.frame_sent();

    // while A's check is outstanding, the only action is to keep waiting
    assert!(matches!(orch.next_action(), Action::AwaitChecks { server: 0 }));

    orch.check_settled(0, true);
    let timed_out = orch.finalize_server();
    assert!(!timed_out);
    assert_eq!(orch.servers[0].status, ServerStatus::Healthy);

    // only now is B's frame due
    assert!(matches!(orch.next_action(), Action::SendFrame { server: 1 }));
    orch.frame_sent();
    let timed_out_b = orch.finalize_server();
    assert!(!timed_out_b);
    assert!(matches!(orch.next_action(), Action::Done));
}

#[test]
fn test_abort_leaves_later_servers_untouched() {
    let failing = probe("127.0.0.1", 10, 100);
    let order = vec![
        plain_server("server_a", vec![failing]),
        plain_server("server_b", Vec::new()),
    ];

    let mut orch = Orchestrator::new(&order);
    orch.frame_sent();
    orch.check_settled(0, false);
    assert!(orch.finalize_server());

    assert!(matches!(orch.next_action(), Action::Aborted { server: 0 }));
    assert_eq!(orch.servers[1].status, ServerStatus::Waiting);
}

use klein::config::{AppConf, AppConfig};
use klein::consistent_hashing::ServerPool;
use klein::dispatch::{decide, dispatch, get_server, home_response, Dispatch};
use klein::load_balancer::{add_server, provision_report, remove_server, rep, ProcessOutput};
use nanorand::WyRand;

fn three() -> ServerPool {
    let mut pool = ServerPool::new(3);
    pool.add_server_with_id(1, "n1".to_string(), "127.0.0.1".to_string(), 18000);
    pool.add_server_with_id(2, "n2".to_string(), "127.0.0.1".to_string(), 18001);
    pool.add_server_with_id(3, "n3".to_string(), "127.0.0.1".to_string(), 18002);
    pool
}

fn ok_output() -> ProcessOutput {
    ProcessOutput { code: Some(0), stdout: "abc".to_string(), stderr: String::new() }
}

#[test]
fn home_on_empty_ring_reports_error() {
    let pool = ServerPool::new(0);
    let mut rng = WyRand::new_seed(37);
    let chosen = get_server(&pool, &mut rng);
    let r = home_response(&chosen);
    assert_eq!(r.message, "Could not get server");
    assert_eq!(r.status, "error");
}

#[test]
fn home_names_chosen_backend() {
    let pool = three();
    let mut rng = WyRand::new_seed(37);
    let chosen = get_server(&pool, &mut rng);
    let name = chosen.as_ref().unwrap().name.clone();
    let r = home_response(&chosen);
    assert_eq!(r.message, format!("Hello from Server: {}", name));
    assert_eq!(r.status, "successful");
}

#[test]
fn dispatch_on_empty_ring_rejects() {
    let pool = ServerPool::new(0);
    let mut rng = WyRand::new_seed(1);
    match dispatch(&pool, &mut rng) {
        Dispatch::Reject { status, body } => {
            assert_eq!(status, 500);
            assert_eq!(body, "no backend server is up");
        }
        Dispatch::Forward(_) => panic!("no backend should be chosen"),
    }
}

#[test]
fn dispatch_forwards_to_listed_backend() {
    let pool = three();
    let mut rng = WyRand::new_seed(5);
    for _ in 0..100 {
        match dispatch(&pool, &mut rng) {
            Dispatch::Forward(s) => assert!(["n1", "n2", "n3"].contains(&s.name.as_str())),
            Dispatch::Reject { .. } => panic!("a backend should be chosen"),
        }
    }
}

#[test]
fn decide_without_backend_rejects() {
    match decide(None) {
        Dispatch::Reject { status, body } => {
            assert_eq!(status, 500);
            assert_eq!(body, "no backend server is up");
        }
        Dispatch::Forward(_) => panic!("nothing to forward to"),
    }
}

#[test]
fn add_reports_one_entry_and_rep_lists_four() {
    let mut pool = three();
    let r = add_server(&mut pool, &"n4".to_string(), 18003, ok_output());
    assert_eq!(r.name, "n4");
    assert_eq!(r.status, 0);
    assert_eq!(r.stdout, "abc");
    let summary = rep(Some(&pool));
    assert_eq!(summary.message.N, 4);
    assert_eq!(summary.message.replicas, vec!["n1", "n2", "n3", "n4"]);
    assert_eq!(summary.status, "successful");
    let added = &pool.server_containers()[3];
    assert_eq!(added.host, "127.0.0.1");
    assert_eq!(added.port, 18003);
}

#[test]
fn add_keeps_backend_when_provisioning_fails() {
    let mut pool = three();
    let failed = ProcessOutput { code: None, stdout: String::new(), stderr: "no docker".to_string() };
    let r = add_server(&mut pool, &"n4".to_string(), 18003, failed);
    assert_eq!(r.status, -255);
    assert_eq!(r.stderr, "no docker");
    assert_eq!(rep(Some(&pool)).message.N, 4);
}

#[test]
fn add_truncates_port_to_sixteen_bits() {
    let mut pool = ServerPool::new(0);
    add_server(&mut pool, &"n".to_string(), 65536 + 80, ok_output());
    assert_eq!(pool.server_containers()[0].port, 80);
}

#[test]
fn remove_drops_backend_from_rep() {
    let mut pool = three();
    let r = remove_server(&mut pool, &"n2".to_string(), ok_output());
    assert_eq!(r.name, "n2");
    let summary = rep(Some(&pool));
    assert_eq!(summary.message.N, 2);
    assert_eq!(summary.message.replicas, vec!["n1", "n3"]);
    for t in 0..1000 {
        assert_ne!(pool.get_server_container(t).unwrap().name, "n2");
    }
}

#[test]
fn rep_of_unreadable_pool_is_error() {
    let summary = rep(None);
    assert_eq!(summary.message.N, 0);
    assert!(summary.message.replicas.is_empty());
    assert_eq!(summary.status, "error");
}

#[test]
fn report_without_exit_code_uses_sentinel() {
    let out = ProcessOutput { code: None, stdout: "o".to_string(), stderr: "e".to_string() };
    let r = provision_report(&"x".to_string(), out);
    assert_eq!(r.status, -255);
    assert_eq!(r.stdout, "o");
    assert_eq!(r.stderr, "e");
    let r = provision_report(&"y".to_string(), ProcessOutput { code: Some(125), stdout: String::new(), stderr: String::new() });
    assert_eq!(r.status, 125);
    assert_eq!(r.name, "y");
}

#[test]
fn config_keeps_listen_address() {
    let c = AppConfig::from(AppConf { port: 3000, host: "0.0.0.0".to_string() });
    assert_eq!(c.port, 3000);
    assert_eq!(c.host, "0.0.0.0");
}

#[test]
fn decimal_string_exact_values() {
    assert_eq!(klein::load_balancer::decimal_string(0), "0");
    assert_eq!(klein::load_balancer::decimal_string(7), "7");
    assert_eq!(klein::load_balancer::decimal_string(18000), "18000");
    assert_eq!(klein::load_balancer::decimal_string(u64::MAX), u64::MAX.to_string());
}

#[test]
fn docker_arguments_for_new_backend() {
    let args = klein::load_balancer::create_docker_instance(&"n4".to_string(), 18003);
    assert_eq!(
        args,
        vec!["run", "-d", "--name", "n4", "-p", "18003:8000", "-e", "SERVER_ID=n4", "nasa_api"]
    );
    let args = klein::load_balancer::remove_docker_instance(&"n4".to_string());
    assert_eq!(args, vec!["rm", "-f", "n4"]);
}

#[test]
fn backend_and_probe_urls() {
    let s = klein::config::SingleServer {
        host: "127.0.0.1".to_string(),
        port: 18001,
        name: "n2".to_string(),
        id: 9,
    };
    assert_eq!(klein::dispatch::backend_url(&s, "/a/b?x=1"), "http://127.0.0.1:18001/a/b?x=1");
    assert_eq!(klein::heartbeat::probe_url(&s), "http://127.0.0.1:18001/heartbeat");
}

#[test]
fn drawn_tokens_spread_requests() {
    let pool = three();
    let mut rng = WyRand::new_seed(37);
    let mut seen = std::collections::BTreeSet::new();
    for _ in 0..200 {
        seen.insert(get_server(&pool, &mut rng).unwrap().name);
    }
    assert!(seen.len() > 1);
}

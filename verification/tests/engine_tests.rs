use rabbit_digger_pro::address::Address;
use rabbit_digger_pro::config::{Config, Net, Server};
use rabbit_digger_pro::connection::{ConnKind, ConnectionTracker, RunningServerNet};
use rabbit_digger_pro::json::Value;
use rabbit_digger_pro::running::{RunningGraph, RunningServer, ServerState};

fn cfg_one_net(id: &str, opt_marker: i64) -> Config {
    let mut cfg = Config::empty("c");
    cfg.net.insert(
        id.to_string(),
        Net::new(
            "alias",
            Value::Obj(vec![("marker".to_string(), Value::Int(opt_marker))]),
        ),
    );
    cfg.server.insert(
        "srv".to_string(),
        Server {
            server_type: "http".to_string(),
            listen: "local".to_string(),
            net: id.to_string(),
            opt: Value::Obj(vec![]),
        },
    );
    cfg
}

#[test]
fn reconcile_builds_each_configured_net_once() {
    let mut g = RunningGraph::new();
    g.reconcile(cfg_one_net("a", 1));
    let rn = g.nets.get("a").unwrap();
    assert_eq!(rn.net_type, "alias");
    assert_eq!(
        rn.opt,
        Value::Obj(vec![("marker".to_string(), Value::Int(1))])
    );
    assert_eq!(rn.build_count, 1);
    assert_eq!(g.nets.len(), 1);
    assert_eq!(g.reconcile_count, 1);
}

#[test]
fn reconcile_twice_with_the_same_config_is_a_no_op() {
    let mut g = RunningGraph::new();
    g.reconcile(cfg_one_net("a", 1));
    let before_nets = g.nets.clone();
    let before_servers = g.servers.clone();
    g.reconcile(cfg_one_net("a", 1));
    assert_eq!(g.nets, before_nets);
    assert_eq!(g.servers, before_servers);
    assert_eq!(g.reconcile_count, 2);
    // in particular: no restart and no rebuild
    assert_eq!(g.nets.get("a").unwrap().build_count, 1);
    assert_eq!(g.servers.get("srv").unwrap().restart_count, 1);
}

#[test]
fn reconcile_swaps_changed_nets_under_a_stable_handle() {
    let mut g = RunningGraph::new();
    g.reconcile(cfg_one_net("a", 1));
    let handle = g.nets.get("a").unwrap().handle;
    g.reconcile(cfg_one_net("a", 2));
    let rn = g.nets.get("a").unwrap();
    assert_eq!(rn.handle, handle);
    assert_eq!(rn.build_count, 2);
    assert_eq!(
        rn.opt,
        Value::Obj(vec![("marker".to_string(), Value::Int(2))])
    );
}

#[test]
fn reconcile_drops_removed_ids() {
    let mut g = RunningGraph::new();
    g.reconcile(cfg_one_net("a", 1));
    g.reconcile(cfg_one_net("b", 1));
    assert!(g.nets.get("a").is_none());
    assert!(g.nets.get("b").is_some());
}

#[test]
fn running_server_restarts_only_on_changed_options() {
    let mut s = RunningServer::new("http".to_string());
    assert_eq!(s.state, ServerState::WaitConfig);
    assert!(s.start(Value::Int(1)));
    assert_eq!(s.restart_count, 1);
    assert!(!s.start(Value::Int(1)));
    assert_eq!(s.restart_count, 1);
    assert!(s.start(Value::Int(2)));
    assert_eq!(s.restart_count, 2);
}

#[test]
fn running_server_lifecycle_and_result() {
    let mut s = RunningServer::new("http".to_string());
    s.start(Value::Null);
    s.finish(false, "bind error".to_string());
    assert_eq!(
        s.take_result(),
        Some((false, "bind error".to_string()))
    );
    assert_eq!(s.state, ServerState::WaitConfig);
    assert_eq!(s.take_result(), None);

    // stopping a running server aborts it and records the outcome, so it
    // can still be taken
    s.start(Value::Null);
    s.stop();
    assert_eq!(
        s.state,
        ServerState::Finished { ok: false, message: "aborted".to_string() }
    );
    // stop is idempotent
    s.stop();
    assert_eq!(s.take_result(), Some((false, "aborted".to_string())));
    assert_eq!(s.state, ServerState::WaitConfig);
}

#[test]
fn tracker_counts_exactly_what_the_wrappers_observed() {
    let mut t = ConnectionTracker::new();
    t.new_conn(
        "u1".to_string(),
        ConnKind::Tcp,
        Address::Domain("example.com".to_string(), 80),
        Value::Null,
    );
    assert!(t.input("u1", 4));
    assert!(t.input("u1", 6));
    assert!(t.output("u1", 9));
    let (total_in, total_out, records) = t.snapshot();
    assert_eq!(total_in, 10);
    assert_eq!(total_out, 9);
    assert_eq!(records.len(), 1);
    assert_eq!(records[0].0, "u1");
    assert_eq!(records[0].1, 10);
    assert_eq!(records[0].2, 9);

    // an unknown flow is left alone
    assert!(!t.input("nope", 1));
}

#[test]
fn kill_connection_fires_once_and_close_removes_the_record() {
    let mut t = ConnectionTracker::new();
    t.new_conn(
        "u1".to_string(),
        ConnKind::Tcp,
        Address::Domain("example.com".to_string(), 80),
        Value::Null,
    );
    // the kill returns whether the uuid was known
    assert!(t.stop("u1"));
    assert!(t.conns.get("u1").unwrap().killed);
    // kill is idempotent
    assert!(t.stop("u1"));
    assert!(t.conns.get("u1").unwrap().killed);
    assert!(!t.stop("u2"));

    // the wrapper drops: the record goes away and the snapshot is empty
    t.close("u1");
    assert!(t.conns.get("u1").is_none());
    let (_, _, records) = t.snapshot();
    assert!(records.is_empty());
    // close is idempotent
    t.close("u1");
}

#[test]
fn stop_all_kills_every_flow_and_reports_the_count() {
    let mut t = ConnectionTracker::new();
    for name in ["a", "b", "c"] {
        t.new_conn(
            name.to_string(),
            ConnKind::Udp,
            Address::Domain("h".to_string(), 1),
            Value::Null,
        );
    }
    assert_eq!(t.stop_all(), 3);
    for name in ["a", "b", "c"] {
        assert!(t.conns.get(name).unwrap().killed);
    }
}

#[test]
fn server_net_decorator_stamps_the_chain_and_registers_flows() {
    let net = RunningServerNet::new("proxy".to_string(), "out".to_string());
    let mut chain = vec!["entry".to_string()];
    net.append_net(&mut chain);
    assert_eq!(chain, vec!["entry".to_string(), "proxy".to_string()]);

    let mut t = ConnectionTracker::new();
    net.register(
        &mut t,
        "u9".to_string(),
        ConnKind::Tcp,
        Address::Domain("example.com".to_string(), 80),
        Value::Null,
    );
    let rec = t.conns.get("u9").unwrap();
    assert_eq!(rec.bytes_in, 0);
    assert_eq!(rec.bytes_out, 0);
    assert!(!rec.killed);
}

use rabbit_digger_pro::config::{parse_config, serialize_config, Config, Net, Server};
use rabbit_digger_pro::json::{obj_get, Value};
use rabbit_digger_pro::select::{NetCapability, SelectNet, SelectNetConfig};
use rabbit_digger_pro::select_map::SelectMap;
use rabbit_digger_pro::strmap::StrMap;
use rabbit_digger_pro::Error;

fn select_opt(selected: &str, list: &[&str]) -> Value {
    let items: Vec<Value> = list.iter().map(|s| Value::Str(s.to_string())).collect();
    Value::Obj(vec![
        ("selected".to_string(), Value::Str(selected.to_string())),
        ("list".to_string(), Value::Arr(items)),
    ])
}

fn sample_config() -> Config {
    let mut cfg = Config::empty("test");
    cfg.net.insert(
        "sel".to_string(),
        Net::new("select", select_opt("x", &["x", "y"])),
    );
    cfg.net.insert(
        "direct0".to_string(),
        Net::new("alias", Value::Obj(vec![("net".to_string(), Value::Str("local".to_string()))])),
    );
    cfg.server.insert(
        "proxy".to_string(),
        Server {
            server_type: "http".to_string(),
            listen: "local".to_string(),
            net: "sel".to_string(),
            opt: Value::Obj(vec![("bind".to_string(), Value::Str("127.0.0.1:16667".to_string()))]),
        },
    );
    cfg
}

#[test]
fn config_round_trip_is_identity() {
    let cfg = sample_config();
    let rendered = serialize_config(cfg.clone());
    let back = parse_config(rendered).unwrap();
    assert_eq!(back, sample_config());
}

#[test]
fn parse_rejects_malformed_documents() {
    assert_eq!(parse_config(Value::Null).unwrap_err(), Error::BadRequest);
    assert_eq!(
        parse_config(Value::Obj(vec![])).unwrap_err(),
        Error::BadRequest
    );
    // a duplicate net id is rejected
    let dup = Value::Obj(vec![
        ("id".to_string(), Value::Str("x".to_string())),
        (
            "net".to_string(),
            Value::Obj(vec![
                (
                    "a".to_string(),
                    Value::Obj(vec![("type".to_string(), Value::Str("noop".to_string()))]),
                ),
                (
                    "a".to_string(),
                    Value::Obj(vec![("type".to_string(), Value::Str("noop".to_string()))]),
                ),
            ]),
        ),
        ("server".to_string(), Value::Obj(vec![])),
    ]);
    assert_eq!(parse_config(dup).unwrap_err(), Error::BadRequest);
}

#[test]
fn merge_right_side_wins_on_shared_keys() {
    let mut base = Config::empty("base");
    base.net
        .insert("n1".to_string(), Net::new("noop", Value::Obj(vec![])));
    base.net
        .insert("keep".to_string(), Net::new("local", Value::Obj(vec![])));

    let mut other = Config::empty("other");
    other
        .net
        .insert("n1".to_string(), Net::new("alias", Value::Obj(vec![])));
    other
        .net
        .insert("new".to_string(), Net::new("select", Value::Obj(vec![])));

    base.merge(other);
    assert_eq!(base.id, "base");
    assert_eq!(base.net.get("n1").unwrap().net_type, "alias");
    assert_eq!(base.net.get("keep").unwrap().net_type, "local");
    assert_eq!(base.net.get("new").unwrap().net_type, "select");
}

#[test]
fn test_merge_importer_merges_config() {
    let mut base = Config::empty("base");

    let mut other = Config::empty("other");
    other.net.insert(
        "n1".to_string(),
        Net::new(
            "alias",
            Value::Obj(vec![("net".to_string(), Value::Str("local".to_string()))]),
        ),
    );

    let importer = rabbit_digger_pro::registry::Merge::build(Default::default()).unwrap();
    importer.process(&mut base, other);

    assert!(base.net.contains_key("n1"));
}

#[test]
fn test_select_map_insert() {
    let mut map = SelectMap::new();
    let old_value = map.insert("net1".to_string(), "selected1".to_string());
    assert!(old_value.is_none());
    let old_value = map.insert("net1".to_string(), "selected2".to_string());
    assert_eq!(old_value, Some("selected1".to_string()));
}

#[test]
fn test_select_map_default() {
    let map = SelectMap::new();
    assert!(map.map.entries.is_empty());
}

#[test]
fn test_select_map_apply_config() {
    let mut map = SelectMap::new();
    map.insert("net_select".to_string(), "net2".to_string());

    let mut config = Config::empty("t");
    config.net.insert(
        "net_select".to_string(),
        Net::new("select", select_opt("net1", &["net1", "net2"])),
    );

    map.apply_config(&mut config);

    let net_config = config.net.get("net_select").unwrap();
    match &net_config.opt {
        Value::Obj(fields) => {
            assert_eq!(
                obj_get(fields, "selected"),
                Some(&Value::Str("net2".to_string()))
            );
        }
        _ => panic!("options must stay an object"),
    }
}

#[test]
fn test_select_map_apply_config_invalid() {
    let mut map = SelectMap::new();
    map.insert("net_select".to_string(), "net_invalid".to_string());

    let mut config = Config::empty("t");
    config.net.insert(
        "net_select".to_string(),
        Net::new("select", select_opt("net1", &["net1", "net2"])),
    );

    map.apply_config(&mut config);

    let net_config = config.net.get("net_select").unwrap();
    match &net_config.opt {
        Value::Obj(fields) => {
            assert_eq!(
                obj_get(fields, "selected"),
                Some(&Value::Str("net1".to_string()))
            );
        }
        _ => panic!("options must stay an object"),
    }
}

#[test]
fn selector_override_round_trip_applies_on_reload() {
    // choose y at runtime, persist it, then reapply on the reloaded config
    let mut map = SelectMap::new();
    map.insert("sel".to_string(), "y".to_string());

    let mut reloaded = sample_config();
    map.apply_config(&mut reloaded);
    let sel = reloaded.net.get("sel").unwrap();
    match &sel.opt {
        Value::Obj(fields) => {
            assert_eq!(obj_get(fields, "selected"), Some(&Value::Str("y".to_string())));
        }
        _ => panic!("options must stay an object"),
    }
}

#[test]
fn test_select_net_new_rejects_empty_list() {
    let err = SelectNet::new(SelectNetConfig {
        selected: "test".to_string(),
        list: vec![],
    })
    .err()
    .unwrap();
    assert_eq!(err, Error::BadRequest);
}

#[test]
fn select_test_provider() {
    let select = SelectNet::new(SelectNetConfig {
        selected: "test".to_string(),
        list: vec!["test".to_string()],
    })
    .unwrap();

    let mut caps: StrMap<NetCapability> = StrMap::new();
    caps.insert(
        "test".to_string(),
        NetCapability { tcp_connect: true, tcp_bind: true, udp_bind: true, lookup_host: true },
    );

    let provided = select.provide(&caps).unwrap();
    assert!(provided.tcp_connect);
    assert!(provided.tcp_bind);
    assert!(provided.udp_bind);
    assert!(provided.lookup_host);
}

#[test]
fn selector_delegates_to_selected_child() {
    let select = SelectNet::new(SelectNetConfig {
        selected: "b".to_string(),
        list: vec!["a".to_string(), "b".to_string()],
    })
    .unwrap();
    let mut caps: StrMap<NetCapability> = StrMap::new();
    caps.insert(
        "a".to_string(),
        NetCapability { tcp_connect: true, tcp_bind: true, udp_bind: true, lookup_host: true },
    );
    caps.insert(
        "b".to_string(),
        NetCapability { tcp_connect: true, tcp_bind: false, udp_bind: false, lookup_host: false },
    );
    // exactly what the net identified by the selection would answer
    let provided = select.provide(&caps).unwrap();
    assert_eq!(*provided, *caps.get("b").unwrap());
    assert_eq!(select.net(), "b");
}

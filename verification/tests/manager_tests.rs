use rabbit_digger_pro::address::{parse_ip, Address, IpAddress};
use rabbit_digger_pro::config::{Config, Net};
use rabbit_digger_pro::dns::DNSNet;
use rabbit_digger_pro::json::{obj_get, Value};
use rabbit_digger_pro::manager::finalize_config;
use rabbit_digger_pro::select_map::SelectMap;
use rabbit_digger_pro::sources::ImportSource;
use rabbit_digger_pro::visitor::{ConfigField, FieldSelection, VisitorContext};

#[test]
fn finalize_sets_the_id_from_the_cache_key_and_reapplies_overrides() {
    let mut cfg = Config::empty("whatever");
    cfg.net.insert(
        "sel".to_string(),
        Net::new(
            "select",
            Value::Obj(vec![
                ("selected".to_string(), Value::Str("x".to_string())),
                (
                    "list".to_string(),
                    Value::Arr(vec![
                        Value::Str("x".to_string()),
                        Value::Str("y".to_string()),
                    ]),
                ),
            ]),
        ),
    );
    let mut overrides = SelectMap::new();
    overrides.insert("sel".to_string(), "y".to_string());

    let out = finalize_config(cfg, &ImportSource::Text("cfg".to_string()), &overrides);
    assert_eq!(out.id, "text");
    match &out.net.get("sel").unwrap().opt {
        Value::Obj(fields) => {
            assert_eq!(obj_get(fields, "selected"), Some(&Value::Str("y".to_string())));
        }
        _ => panic!("options must stay an object"),
    }
}

#[test]
fn visitor_context_tracks_the_field_path() {
    let mut ctx = VisitorContext::new();
    assert!(ctx.path().is_empty());
    ctx.push("net".to_string());
    ctx.push("sel".to_string());
    assert_eq!(ctx.path(), &vec!["net".to_string(), "sel".to_string()]);
    ctx.pop();
    assert_eq!(ctx.path(), &vec!["net".to_string()]);
    ctx.pop();
    ctx.pop();
    assert!(ctx.path().is_empty());
}

#[test]
fn field_selection_elides_what_was_not_asked_for() {
    let common = FieldSelection::new();
    assert!(common.detailed_field());
    assert!(common.sensitive_field());

    let all = FieldSelection::all();
    assert!(!all.detailed_field());
    assert!(!all.sensitive_field());

    let detail_only = FieldSelection { fields: vec![ConfigField::Detail] };
    assert!(!detail_only.detailed_field());
    assert!(detail_only.sensitive_field());
}

#[test]
fn dns_overlay_rewrites_remembered_answers() {
    let mut dns = DNSNet::new("local".to_string());
    let ip = parse_ip("1.2.3.4").unwrap();
    dns.record_answer(ip, "example.com".to_string());

    assert_eq!(
        dns.reverse_lookup(Address::Socket(ip, 443)),
        Address::Domain("example.com".to_string(), 443)
    );
    // an unknown address passes through
    let other = Address::Socket(parse_ip("8.8.8.8").unwrap(), 53);
    assert_eq!(dns.reverse_lookup(other.clone()), other);
    // a domain destination passes through
    let dom = Address::Domain("x".to_string(), 1);
    assert_eq!(dns.reverse_lookup(dom.clone()), dom);

    // the newest answer shadows older ones
    dns.record_answer(ip, "renamed.example".to_string());
    assert_eq!(
        dns.reverse_lookup(Address::Socket(ip, 80)),
        Address::Domain("renamed.example".to_string(), 80)
    );
    assert!(matches!(
        dns.reverse_lookup(Address::Socket(IpAddress::V6(9), 80)),
        Address::Socket(IpAddress::V6(9), 80)
    ));
}

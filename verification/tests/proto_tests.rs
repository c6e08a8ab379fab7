use rabbit_digger_pro::address::{parse_ip, parse_ipv4, parse_ipv6, resolve_mapped_address, Address, IpAddress};
use rabbit_digger_pro::registry::resolve_refs;
use rabbit_digger_pro::strmap::StrMap;
use rabbit_digger_pro::hysteria2::{Salamander, StreamRequest, StreamResponse};
use rabbit_digger_pro::registry::{EmptyConfig, Importer, Merge, NoopNet, NotImplementedNet, Registry, Rhai};
use rabbit_digger_pro::tracing_helper::WriteAdaptor;
use rabbit_digger_pro::config::{Config, Net};
use rabbit_digger_pro::json::Value;
use rabbit_digger_pro::registry::{build_order, referenced_nets, validate_build_order};
use rabbit_digger_pro::hysteria2::UdpMessage;
use rabbit_digger_pro::Error;

#[test]
fn ipv4_text_parsing() {
    assert_eq!(parse_ipv4("127.0.0.1"), Some(0x7F000001));
    assert_eq!(parse_ipv4("0.0.0.0"), Some(0));
    assert_eq!(parse_ipv4("255.255.255.255"), Some(u32::MAX));
    assert_eq!(parse_ipv4("256.0.0.1"), None);
    assert_eq!(parse_ipv4("1.2.3"), None);
    assert_eq!(parse_ipv4("01.2.3.4"), None);
    assert_eq!(parse_ipv4("a.b.c.d"), None);
}

#[test]
fn ipv6_text_parsing() {
    assert_eq!(parse_ipv6("::"), Some(0));
    assert_eq!(parse_ipv6("::1"), Some(1));
    assert_eq!(parse_ipv6("2001:db8::1"), Some(0x2001_0db8_0000_0000_0000_0000_0000_0001));
    assert_eq!(
        parse_ipv6("1:2:3:4:5:6:7:8"),
        Some(0x0001_0002_0003_0004_0005_0006_0007_0008)
    );
    assert_eq!(parse_ipv6("fe80::"), Some(0xfe80_0000_0000_0000_0000_0000_0000_0000));
    assert_eq!(parse_ipv6(":"), None);
    assert_eq!(parse_ipv6("1::2::3"), None);
    assert_eq!(parse_ipv6("1:2:3"), None);
    assert_eq!(parse_ipv6("12345::"), None);

    assert_eq!(parse_ip("10.0.0.1"), Some(IpAddress::V4(0x0A000001)));
    assert_eq!(parse_ip("::1"), Some(IpAddress::V6(1)));
    assert_eq!(parse_ip("nope"), None);
}

#[test]
fn reserved_addresses() {
    let reserved = [
        "0.0.0.0", "0.0.0.255", "127.0.0.1", "10.0.0.1", "169.254.0.1", "192.168.0.1",
        "172.16.0.1", "224.0.0.1", "240.0.0.1", "::1", "fc00::1", "fc80::1",
    ];
    for a in reserved {
        assert!(
            rabbit_digger_pro::address::is_reserved(&parse_ip(a).unwrap()),
            "{a} must be reserved"
        );
    }
    assert!(!rabbit_digger_pro::address::is_reserved(
        &parse_ip("1.0.0.0").unwrap()
    ));
}

#[test]
fn test_resolve_mapped_socket_addr() {
    let plain = Address::Socket(parse_ip("127.0.0.1").unwrap(), 1);
    assert_eq!(resolve_mapped_address(plain.clone()), plain);

    let mapped = Address::Socket(parse_ip("::ffff:1122:3344").unwrap(), 1);
    assert_eq!(
        resolve_mapped_address(mapped),
        Address::Socket(IpAddress::V4(0x11223344), 1)
    );

    let not_mapped = Address::Socket(parse_ip("::fffc:1122:3344").unwrap(), 1);
    assert_eq!(resolve_mapped_address(not_mapped.clone()), not_mapped);
}

#[test]
fn test_is_reserved() {
    assert!(rabbit_digger_pro::address::is_reserved(&parse_ip("0.0.0.0").unwrap()));
    assert!(!rabbit_digger_pro::address::is_reserved(&parse_ip("1.0.0.0").unwrap()));
}

#[test]
fn stream_request_round_trip() {
    let req = StreamRequest::new("example.com:443".to_string());
    let bytes = req.encode();
    let back = StreamRequest::decode(bytes.as_slice()).unwrap();
    assert_eq!(back, req);

    assert!(StreamRequest::decode(&[]).is_err());
    assert!(StreamRequest::decode(&[0u8; 17]).is_err());
}

#[test]
fn stream_response_round_trip() {
    let ok = StreamResponse::ok();
    assert_eq!(ok.status, 0);
    let back = StreamResponse::decode(ok.encode().as_slice()).unwrap();
    assert_eq!(back, ok);

    let err = StreamResponse::error("denied".to_string());
    assert_eq!(err.status, 1);
    let back = StreamResponse::decode(err.encode().as_slice()).unwrap();
    assert_eq!(back, err);
}

#[test]
fn salamander_obfuscation_round_trips() {
    let s = Salamander::new("secret");
    let payload: Vec<u8> = (0u8..200).collect();
    let packet = s.encrypt(&payload);
    assert_eq!(packet.len(), payload.len() + 8);
    assert_eq!(s.decrypt(&packet), Some(payload));

    // a packet shorter than its salt is nothing
    assert_eq!(s.decrypt(&vec![1, 2, 3]), None);

    // the mask actually changes the payload bytes
    let payload = vec![0u8; 32];
    let packet = s.encrypt(&payload);
    assert_ne!(&packet[8..], &payload[..]);
}

#[test]
fn test_write_adaptor_valid_utf8() {
    let mut w = WriteAdaptor::new();
    assert_eq!(w.write(b"abc").unwrap(), 3);
    assert_eq!(w.content(), "abc");
}

#[test]
fn test_write_adaptor_invalid_utf8_is_error() {
    let mut w = WriteAdaptor::new();
    let err = w.write(&[0xff]).unwrap_err();
    assert_eq!(err, Error::BadRequest);
    assert_eq!(w.content(), "");
}

#[test]
fn test_noop_builder() {
    let result = NoopNet::build(EmptyConfig::default());
    assert!(result.is_ok());
    assert!(matches!(result.unwrap(), NotImplementedNet {}));
}

#[test]
fn test_merge_builder_and_into_dyn() {
    let m = Merge::build(EmptyConfig::default()).unwrap();
    let dyn_imp = m.into_dyn();
    assert!(matches!(dyn_imp, Importer::Merge(_)));
}

#[test]
fn test_rhai_builder_and_into_dyn() {
    let r = Rhai::build(EmptyConfig::default()).unwrap();
    let dyn_imp = r.into_dyn();
    assert!(matches!(dyn_imp, Importer::Rhai(_)));
}

#[test]
fn registry_lookup_and_builtin_types() {
    let reg = Registry::new_with_builtin().unwrap();
    assert!(reg.get_net("select").is_ok());
    assert!(reg.get_net("local").is_ok());
    assert!(reg.get_server("http").is_ok());
    assert_eq!(reg.get_net("no-such-type").unwrap_err(), Error::NotFound);
    assert_eq!(reg.get_net("select").unwrap().plugin_name, "std");

    let mut reg = Registry::new();
    reg.init_with_registry(
        "extra",
        vec!["shadowsocks".to_string()],
        vec!["socks5".to_string()],
    )
    .unwrap();
    assert_eq!(reg.get_net("shadowsocks").unwrap().plugin_name, "extra");
    assert_eq!(reg.get_server("socks5").unwrap().plugin_name, "extra");
}

#[test]
fn reference_resolution_fails_on_the_missing_id() {
    let mut nets: StrMap<u64> = StrMap::new();
    nets.insert("a".to_string(), 10);
    nets.insert("b".to_string(), 11);

    let handles = resolve_refs(&vec!["a".to_string(), "b".to_string()], &nets).unwrap();
    assert_eq!(handles, vec![10, 11]);

    let err = resolve_refs(&vec!["a".to_string(), "missing".to_string()], &nets).unwrap_err();
    assert_eq!(err, Error::UnresolvedNet("missing".to_string()));
}

#[test]
fn build_order_validation_accepts_leaves_first() {
    let mut cfg = Config::empty("c");
    cfg.net.insert(
        "a".to_string(),
        Net::new(
            "alias",
            Value::Obj(vec![("net".to_string(), Value::Str("b".to_string()))]),
        ),
    );
    cfg.net.insert(
        "b".to_string(),
        Net::new(
            "alias",
            Value::Obj(vec![("net".to_string(), Value::Str("local".to_string()))]),
        ),
    );

    assert_eq!(
        referenced_nets(cfg.net.get("a").unwrap()),
        vec!["b".to_string()]
    );

    // leaves first is valid; the reverse is not, and neither is a repeat
    assert!(validate_build_order(
        &cfg.net,
        &vec!["b".to_string(), "a".to_string()]
    ));
    assert!(!validate_build_order(
        &cfg.net,
        &vec!["a".to_string(), "b".to_string()]
    ));
    assert!(!validate_build_order(
        &cfg.net,
        &vec!["b".to_string(), "b".to_string()]
    ));

    // a reference cycle admits no valid order at all
    let mut cyc = Config::empty("c");
    for (id, to) in [("x", "y"), ("y", "x")] {
        cyc.net.insert(
            id.to_string(),
            Net::new(
                "alias",
                Value::Obj(vec![("net".to_string(), Value::Str(to.to_string()))]),
            ),
        );
    }
    assert!(!validate_build_order(
        &cyc.net,
        &vec!["x".to_string(), "y".to_string()]
    ));
    assert!(!validate_build_order(
        &cyc.net,
        &vec!["y".to_string(), "x".to_string()]
    ));

    // a selector references its selection and every listed child
    let sel = Net::new(
        "select",
        Value::Obj(vec![
            ("selected".to_string(), Value::Str("x".to_string())),
            (
                "list".to_string(),
                Value::Arr(vec![
                    Value::Str("x".to_string()),
                    Value::Str("y".to_string()),
                ]),
            ),
        ]),
    );
    assert_eq!(
        referenced_nets(&sel),
        vec!["x".to_string(), "x".to_string(), "y".to_string()]
    );
}

#[test]
fn build_order_construction() {
    let mut cfg = Config::empty("c");
    cfg.net.insert(
        "a".to_string(),
        Net::new(
            "alias",
            Value::Obj(vec![("net".to_string(), Value::Str("b".to_string()))]),
        ),
    );
    cfg.net.insert(
        "b".to_string(),
        Net::new(
            "alias",
            Value::Obj(vec![("net".to_string(), Value::Str("local".to_string()))]),
        ),
    );
    assert_eq!(
        build_order(&cfg.net).unwrap(),
        vec!["b".to_string(), "a".to_string()]
    );

    // a reference cycle admits no order
    let mut cyc = Config::empty("c");
    for (id, to) in [("x", "y"), ("y", "x")] {
        cyc.net.insert(
            id.to_string(),
            Net::new(
                "alias",
                Value::Obj(vec![("net".to_string(), Value::Str(to.to_string()))]),
            ),
        );
    }
    assert_eq!(build_order(&cyc.net).unwrap_err(), Error::CycleDetected);

    // a dangling reference is unresolved
    let mut dangling = Config::empty("c");
    dangling.net.insert(
        "a".to_string(),
        Net::new(
            "alias",
            Value::Obj(vec![("net".to_string(), Value::Str("missing".to_string()))]),
        ),
    );
    assert_eq!(
        build_order(&dangling.net).unwrap_err(),
        Error::UnresolvedNet("missing".to_string())
    );
}

#[test]
fn udp_message_round_trip() {
    let msg = UdpMessage::new(7, "example.com:53".to_string(), vec![1, 2, 3, 4]);
    assert_eq!(msg.packet_id, 0);
    assert_eq!(msg.fragment_count, 1);
    let bytes = msg.encode();
    let back = UdpMessage::decode(bytes.as_slice()).unwrap();
    assert_eq!(back, msg);

    assert!(UdpMessage::decode(&[0u8; 4]).is_err());
}

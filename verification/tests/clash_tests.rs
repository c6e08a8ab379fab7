use rabbit_digger_pro::clash::{Clash, ClashConfig, ParsedRule, Proxy, ProxyGroup, RuleProvider};
use rabbit_digger_pro::config::Config;
use rabbit_digger_pro::json::{obj_get, Value};
use rabbit_digger_pro::rule::{DomainMatcherMethod, Matcher};
use rabbit_digger_pro::strmap::StrMap;

fn base_clash() -> Clash {
    Clash {
        rule_name: None,
        prefix: None,
        direct: None,
        reject: None,
        disable_proxy_group: false,
        select: None,
        name_map: StrMap::new(),
    }
}

fn obj(fields: Vec<(&str, Value)>) -> Value {
    Value::Obj(
        fields
            .into_iter()
            .map(|(k, v)| (k.to_string(), v))
            .collect(),
    )
}

#[test]
fn test_get_target_defaults_and_errors() {
    let mut c = base_clash();
    c.name_map.insert("ProxyA".to_string(), "pA".to_string());

    assert_eq!(c.get_target("DIRECT").unwrap(), "local");
    assert_eq!(c.get_target("REJECT").unwrap(), "blackhole");
    assert_eq!(c.get_target("ProxyA").unwrap(), "pA");

    assert!(c.get_target("Missing").is_err());
}

#[test]
fn test_proxy_to_net_variants_and_plugin_errors() {
    let c = base_clash();

    let ss = Proxy {
        name: "p".to_string(),
        proxy_type: "ss".to_string(),
        opt: obj(vec![
            ("server", Value::Str("example.com".to_string())),
            ("port", Value::Int(443)),
            ("cipher", Value::Str("aes-128-gcm".to_string())),
            ("password", Value::Str("pw".to_string())),
            ("udp", Value::Bool(true)),
        ]),
    };
    assert_eq!(c.proxy_to_net(&ss, None).unwrap().net_type, "shadowsocks");

    let ss_obfs = Proxy {
        name: "p".to_string(),
        proxy_type: "ss".to_string(),
        opt: obj(vec![
            ("server", Value::Str("example.com".to_string())),
            ("port", Value::Int(443)),
            ("cipher", Value::Str("aes-128-gcm".to_string())),
            ("password", Value::Str("pw".to_string())),
            ("plugin", Value::Str("obfs".to_string())),
            (
                "plugin-opts",
                obj(vec![("mode", Value::Str("tls".to_string()))]),
            ),
        ]),
    };
    assert_eq!(
        c.proxy_to_net(&ss_obfs, None).unwrap().net_type,
        "shadowsocks"
    );

    let ss_bad_plugin = Proxy {
        name: "p".to_string(),
        proxy_type: "ss".to_string(),
        opt: obj(vec![
            ("server", Value::Str("example.com".to_string())),
            ("port", Value::Int(443)),
            ("cipher", Value::Str("aes-128-gcm".to_string())),
            ("password", Value::Str("pw".to_string())),
            ("plugin", Value::Str("something".to_string())),
            (
                "plugin-opts",
                obj(vec![("mode", Value::Str("tls".to_string()))]),
            ),
        ]),
    };
    assert!(c.proxy_to_net(&ss_bad_plugin, None).is_err());

    let trojan = Proxy {
        name: "t".to_string(),
        proxy_type: "trojan".to_string(),
        opt: obj(vec![
            ("server", Value::Str("example.com".to_string())),
            ("port", Value::Int(443)),
            ("password", Value::Str("pw".to_string())),
        ]),
    };
    assert_eq!(c.proxy_to_net(&trojan, None).unwrap().net_type, "trojan");

    let http = Proxy {
        name: "h".to_string(),
        proxy_type: "http".to_string(),
        opt: obj(vec![
            ("server", Value::Str("example.com".to_string())),
            ("port", Value::Int(8080)),
        ]),
    };
    let http_net = c.proxy_to_net(&http, None).unwrap();
    assert_eq!(http_net.net_type, "http");
    match &http_net.opt {
        Value::Obj(fields) => {
            assert_eq!(
                obj_get(fields, "server"),
                Some(&Value::Str("example.com:8080".to_string()))
            );
        }
        _ => panic!("options must be an object"),
    }

    let socks5 = Proxy {
        name: "s".to_string(),
        proxy_type: "socks5".to_string(),
        opt: obj(vec![
            ("server", Value::Str("example.com".to_string())),
            ("port", Value::Int(1080)),
        ]),
    };
    assert_eq!(c.proxy_to_net(&socks5, None).unwrap().net_type, "socks5");

    let other = Proxy {
        name: "x".to_string(),
        proxy_type: "unknown".to_string(),
        opt: obj(vec![("any", Value::Int(1))]),
    };
    assert!(c.proxy_to_net(&other, None).is_err());
}

#[test]
fn test_proxy_group_to_net_select_and_relay_errors() {
    let mut c = base_clash();
    c.name_map.insert("a".to_string(), "a".to_string());
    c.name_map.insert("b".to_string(), "b".to_string());

    let mut proxy_map: StrMap<Proxy> = StrMap::new();
    proxy_map.insert(
        "a".to_string(),
        Proxy {
            name: "a".to_string(),
            proxy_type: "http".to_string(),
            opt: obj(vec![
                ("server", Value::Str("example.com".to_string())),
                ("port", Value::Int(8080)),
            ]),
        },
    );

    let pg_select = ProxyGroup {
        name: "g".to_string(),
        proxy_group_type: "select".to_string(),
        proxies: vec!["a".to_string(), "b".to_string()],
    };
    assert_eq!(
        c.proxy_group_to_net(pg_select, &proxy_map).unwrap().net_type,
        "select"
    );

    let pg_urltest = ProxyGroup {
        name: "g".to_string(),
        proxy_group_type: "url-test".to_string(),
        proxies: vec!["a".to_string()],
    };
    assert_eq!(
        c.proxy_group_to_net(pg_urltest, &proxy_map).unwrap().net_type,
        "select"
    );

    let pg_relay_missing_proxy = ProxyGroup {
        name: "g".to_string(),
        proxy_group_type: "relay".to_string(),
        proxies: vec!["b".to_string()],
    };
    assert!(c
        .proxy_group_to_net(pg_relay_missing_proxy, &proxy_map)
        .is_err());

    let pg_bad = ProxyGroup {
        name: "g".to_string(),
        proxy_group_type: "bad".to_string(),
        proxies: vec!["a".to_string()],
    };
    assert!(c.proxy_group_to_net(pg_bad, &proxy_map).is_err());
}

#[test]
fn test_rule_to_rule_variants_and_rule_set_file() {
    let mut c = base_clash();
    c.name_map.insert("ProxyA".to_string(), "pA".to_string());

    let item = c
        .parse_rule_line("DOMAIN-SUFFIX,example.com,ProxyA")
        .unwrap();
    match item {
        ParsedRule::Plain(item) => match item.matcher {
            Matcher::Domain(d) => assert!(matches!(d.method, DomainMatcherMethod::Suffix)),
            _ => panic!("unexpected matcher"),
        },
        _ => panic!("unexpected rule"),
    }

    let item = c.parse_rule_line("IP-CIDR,1.2.3.0/24,ProxyA").unwrap();
    assert!(matches!(
        item,
        ParsedRule::Plain(ref r) if matches!(r.matcher, Matcher::IpCidr(_))
    ));

    let item = c.parse_rule_line("SRC-IP-CIDR,10.0.0.0/8,ProxyA").unwrap();
    assert!(matches!(
        item,
        ParsedRule::Plain(ref r) if matches!(r.matcher, Matcher::SrcIpCidr(_))
    ));

    let item = c.parse_rule_line("MATCH,ProxyA").unwrap();
    assert!(matches!(
        item,
        ParsedRule::Plain(ref r) if matches!(r.matcher, Matcher::Any(_))
    ));

    let item = c.parse_rule_line("GEOIP,CN,ProxyA").unwrap();
    assert!(matches!(
        item,
        ParsedRule::Plain(ref r) if matches!(r.matcher, Matcher::GeoIp(_))
    ));

    // a rule-set reference defers to its provider; its payload arrives
    // prefetched and becomes an exact-match domain rule
    let parsed = c.parse_rule_line("RULE-SET,set1,ProxyA").unwrap();
    let (set, target) = match parsed {
        ParsedRule::NeedsRuleSet { set, target } => (set, target),
        _ => panic!("expected a rule-set reference"),
    };
    assert_eq!(set, "set1");
    let payload = vec!["example.com".to_string(), "foo.bar".to_string()];
    let item = rabbit_digger_pro::clash::ruleset_to_rule("domain", &payload, target).unwrap();
    match item.matcher {
        Matcher::Domain(d) => {
            assert!(matches!(d.method, DomainMatcherMethod::Match));
            assert!(d.domain.len() >= 2);
        }
        _ => panic!("unexpected matcher"),
    }
}

#[test]
fn clash_process_translates_a_whole_document() {
    let mut c = base_clash();
    c.rule_name = Some("rule".to_string());
    c.select = Some("all".to_string());

    let doc = ClashConfig {
        proxies: vec![Proxy {
            name: "p1".to_string(),
            proxy_type: "http".to_string(),
            opt: obj(vec![
                ("server", Value::Str("example.com".to_string())),
                ("port", Value::Int(8080)),
            ]),
        }],
        proxy_groups: vec![ProxyGroup {
            name: "g1".to_string(),
            proxy_group_type: "select".to_string(),
            proxies: vec!["p1".to_string()],
        }],
        rules: vec![
            "DOMAIN-SUFFIX,example.com,p1".to_string(),
            "MATCH,DIRECT".to_string(),
        ],
        rule_providers: StrMap::new(),
    };

    let mut cfg = Config::empty("c");
    c.process(&mut cfg, doc, &StrMap::new()).unwrap();

    assert_eq!(cfg.net.get("p1").unwrap().net_type, "http");
    assert_eq!(cfg.net.get("g1").unwrap().net_type, "select");
    assert_eq!(cfg.net.get("rule").unwrap().net_type, "rule");
    assert_eq!(cfg.net.get("all").unwrap().net_type, "select");
}

#[test]
fn clash_rule_set_provider_lookup() {
    let mut c = base_clash();
    c.rule_name = Some("rule".to_string());
    c.name_map.insert("ProxyA".to_string(), "pA".to_string());

    let mut providers: StrMap<RuleProvider> = StrMap::new();
    providers.insert(
        "set1".to_string(),
        RuleProvider {
            rule_type: "file".to_string(),
            behavior: "domain".to_string(),
            url: String::new(),
            path: "/tmp/rules".to_string(),
            interval: 1,
        },
    );
    let doc = ClashConfig {
        proxies: vec![],
        proxy_groups: vec![],
        rules: vec!["RULE-SET,set1,ProxyA".to_string()],
        rule_providers: providers,
    };
    let mut payloads: StrMap<Vec<String>> = StrMap::new();
    payloads.insert(
        "set1".to_string(),
        vec!["example.com".to_string(), "foo.bar".to_string()],
    );
    let mut cfg = Config::empty("c");
    c.process(&mut cfg, doc, &payloads).unwrap();
    assert_eq!(cfg.net.get("rule").unwrap().net_type, "rule");
}

#[test]
fn clash_prefix_applies_to_proxy_names() {
    let mut c = base_clash();
    c.prefix = Some("clash".to_string());
    assert_eq!(c.prefix("p1"), "clash.p1");
    assert_eq!(c.proxy_group_name("g"), "clash.g");
}

#[test]
fn translated_rule_net_keeps_its_prefixes() {
    let mut c = base_clash();
    c.rule_name = Some("rule".to_string());
    c.name_map.insert("A".to_string(), "a".to_string());
    c.name_map.insert("B".to_string(), "b".to_string());
    c.name_map.insert("C".to_string(), "c".to_string());

    let doc = ClashConfig {
        proxies: vec![],
        proxy_groups: vec![],
        rules: vec![
            "DOMAIN-SUFFIX,example.com,A".to_string(),
            "IP-CIDR,10.0.0.0/8,B".to_string(),
            "MATCH,C".to_string(),
        ],
        rule_providers: StrMap::new(),
    };
    let mut cfg = Config::empty("c");
    c.process(&mut cfg, doc, &StrMap::new()).unwrap();

    let rule_net = cfg.net.get("rule").unwrap();
    let fields = match &rule_net.opt {
        Value::Obj(fields) => fields,
        _ => panic!("rule options must be an object"),
    };
    let items = match obj_get(fields, "rule") {
        Some(Value::Arr(items)) => items,
        _ => panic!("the rule net must carry its items"),
    };
    assert_eq!(items.len(), 3);
    // the CIDR rule keeps its prefix, losslessly
    let cidr_item = match &items[1] {
        Value::Obj(f) => f,
        _ => panic!("an item must be an object"),
    };
    assert_eq!(obj_get(cidr_item, "target"), Some(&Value::Str("b".to_string())));
    let cidrs = match obj_get(cidr_item, "ipcidr") {
        Some(Value::Arr(cs)) => cs,
        _ => panic!("a CIDR item carries its prefixes"),
    };
    let one = match &cidrs[0] {
        Value::Obj(f) => f,
        _ => panic!("a prefix is an object"),
    };
    assert_eq!(obj_get(one, "prefix"), Some(&Value::Int(8)));
    assert_eq!(obj_get(one, "v4"), Some(&Value::Int(0x0A000000)));
}

#[test]
fn process_fails_when_a_rule_line_does_not_translate() {
    let mut c = base_clash();
    c.rule_name = Some("rule".to_string());
    let doc = ClashConfig {
        proxies: vec![],
        proxy_groups: vec![],
        rules: vec!["MATCH,Unknown".to_string()],
        rule_providers: StrMap::new(),
    };
    let mut cfg = Config::empty("c");
    assert!(c.process(&mut cfg, doc, &StrMap::new()).is_err());
}

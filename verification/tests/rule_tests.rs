use rabbit_digger_pro::address::{parse_cidr, parse_ip, IpAddress, IpCidr};
use rabbit_digger_pro::rule::{
    coalesce_rules, dispatch, keyword_matches, suffix_matches, AnyMatcher, DomainMatcher,
    DomainMatcherMethod, IpCidrMatcher, MatchContext, Matcher, RuleItem,
};
use rabbit_digger_pro::address::Address;
use rabbit_digger_pro::Error;

fn ctx_domain(host: &str, port: u16) -> MatchContext {
    MatchContext {
        dest: Address::Domain(host.to_string(), port),
        resolved_ip: None,
        src_ip: None,
        country: None,
    }
}

fn ctx_socket(ip: &str, port: u16) -> MatchContext {
    MatchContext {
        dest: Address::Socket(parse_ip(ip).unwrap(), port),
        resolved_ip: None,
        src_ip: None,
        country: None,
    }
}

#[test]
fn suffix_matcher_accepts_equal_and_dotted_suffix() {
    assert!(suffix_matches("example.com", "example.com"));
    assert!(suffix_matches("example.com", "api.example.com"));
    assert!(suffix_matches("example.com", "a.b.example.com"));
    assert!(!suffix_matches("example.com", "badexample.com"));
    assert!(!suffix_matches("example.com", "example.com.evil"));
    assert!(!suffix_matches("example.com", "com"));
}

#[test]
fn keyword_matcher_finds_substring() {
    assert!(keyword_matches("goog", "www.google.com"));
    assert!(keyword_matches("", "anything"));
    assert!(!keyword_matches("xyz", "www.google.com"));
}

#[test]
fn rule_dispatch_takes_first_match() {
    let rules = vec![
        RuleItem {
            target: "A".to_string(),
            matcher: Matcher::Domain(DomainMatcher {
                method: DomainMatcherMethod::Suffix,
                domain: vec!["example.com".to_string()],
            }),
        },
        RuleItem {
            target: "B".to_string(),
            matcher: Matcher::IpCidr(IpCidrMatcher {
                ipcidr: vec![parse_cidr("10.0.0.0/8").unwrap()],
            }),
        },
        RuleItem {
            target: "C".to_string(),
            matcher: Matcher::Any(AnyMatcher {}),
        },
    ];

    assert_eq!(
        dispatch(&rules, &ctx_domain("api.example.com", 80)).unwrap(),
        "A"
    );
    assert_eq!(dispatch(&rules, &ctx_socket("10.1.2.3", 22)).unwrap(), "B");
    assert_eq!(dispatch(&rules, &ctx_socket("1.1.1.1", 53)).unwrap(), "C");
}

#[test]
fn rule_dispatch_without_match_fails() {
    let rules = vec![RuleItem {
        target: "A".to_string(),
        matcher: Matcher::Domain(DomainMatcher {
            method: DomainMatcherMethod::Match,
            domain: vec!["only.example".to_string()],
        }),
    }];
    assert_eq!(
        dispatch(&rules, &ctx_domain("other.example", 80)).unwrap_err(),
        Error::NoRuleMatched
    );
}

#[test]
fn zero_prefix_accepts_every_address_of_its_family() {
    let v4 = parse_cidr("0.0.0.0/0").unwrap();
    assert!(v4.contains(&IpAddress::V4(0)));
    assert!(v4.contains(&IpAddress::V4(0xFFFF_FFFF)));
    assert!(v4.contains(&parse_ip("8.8.8.8").unwrap()));
    assert!(!v4.contains(&IpAddress::V6(1)));

    let v6 = parse_cidr("::/0").unwrap();
    assert!(v6.contains(&IpAddress::V6(0)));
    assert!(v6.contains(&IpAddress::V6(u128::MAX)));
    assert!(v6.contains(&parse_ip("2001:db8::1").unwrap()));
    assert!(!v6.contains(&IpAddress::V4(0)));
}

#[test]
fn cidr_prefix_membership() {
    let c = parse_cidr("10.0.0.0/8").unwrap();
    assert!(c.contains(&parse_ip("10.255.0.1").unwrap()));
    assert!(!c.contains(&parse_ip("11.0.0.1").unwrap()));

    let c = parse_cidr("192.168.1.0/24").unwrap();
    assert!(c.contains(&parse_ip("192.168.1.77").unwrap()));
    assert!(!c.contains(&parse_ip("192.168.2.1").unwrap()));

    assert_eq!(parse_cidr("10.0.0.0/33").unwrap_err(), Error::BadRequest);
    assert_eq!(parse_cidr("not-an-ip/8").unwrap_err(), Error::BadRequest);
    assert_eq!(parse_cidr("10.0.0.0").unwrap_err(), Error::BadRequest);
}

#[test]
fn coalescing_two_adjacent_domain_rules_unites_their_sets() {
    let r1 = RuleItem {
        target: "T".to_string(),
        matcher: Matcher::Domain(DomainMatcher {
            method: DomainMatcherMethod::Match,
            domain: vec!["a".to_string(), "b".to_string()],
        }),
    };
    let r2 = RuleItem {
        target: "T".to_string(),
        matcher: Matcher::Domain(DomainMatcher {
            method: DomainMatcherMethod::Match,
            domain: vec!["c".to_string()],
        }),
    };
    let merged = coalesce_rules(vec![r1.clone(), r2.clone()]);
    assert_eq!(merged.len(), 1);
    match &merged[0].matcher {
        Matcher::Domain(dm) => {
            assert_eq!(
                dm.domain,
                vec!["a".to_string(), "b".to_string(), "c".to_string()]
            );
        }
        _ => panic!("expected a domain matcher"),
    }

    // behavior identical to the pair, for each of the three names and a miss
    for host in ["a", "b", "c", "d"] {
        let pair = vec![r1.clone(), r2.clone()];
        let one = merged.clone();
        let expect = dispatch(&pair, &ctx_domain(host, 80));
        let got = dispatch(&one, &ctx_domain(host, 80));
        assert_eq!(expect.is_ok(), got.is_ok());
        if let (Ok(a), Ok(b)) = (expect, got) {
            assert_eq!(a, b);
        }
    }
}

#[test]
fn coalescing_keeps_rules_of_different_targets_apart() {
    let r1 = RuleItem {
        target: "T".to_string(),
        matcher: Matcher::Domain(DomainMatcher {
            method: DomainMatcherMethod::Match,
            domain: vec!["a".to_string()],
        }),
    };
    let r2 = RuleItem {
        target: "U".to_string(),
        matcher: Matcher::Domain(DomainMatcher {
            method: DomainMatcherMethod::Match,
            domain: vec!["b".to_string()],
        }),
    };
    assert_eq!(coalesce_rules(vec![r1, r2]).len(), 2);
}

#[test]
fn geoip_and_src_matchers_consult_the_context() {
    let rules = vec![RuleItem {
        target: "CN".to_string(),
        matcher: Matcher::GeoIp(rabbit_digger_pro::rule::GeoIpMatcher {
            country: "CN".to_string(),
        }),
    }];
    let mut ctx = ctx_socket("1.2.3.4", 80);
    ctx.country = Some("CN".to_string());
    assert_eq!(dispatch(&rules, &ctx).unwrap(), "CN");
    ctx.country = Some("US".to_string());
    assert!(dispatch(&rules, &ctx).is_err());
}

#[test]
fn domain_matcher_uses_cached_resolution_for_cidr() {
    let rules = vec![RuleItem {
        target: "B".to_string(),
        matcher: Matcher::IpCidr(IpCidrMatcher {
            ipcidr: vec![parse_cidr("10.0.0.0/8").unwrap()],
        }),
    }];
    let mut ctx = ctx_domain("internal.example", 80);
    assert!(dispatch(&rules, &ctx).is_err());
    ctx.resolved_ip = Some(parse_ip("10.0.0.7").unwrap());
    assert_eq!(dispatch(&rules, &ctx).unwrap(), "B");
}

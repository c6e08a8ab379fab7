//! The Clash translator: proxies become nets, proxy groups become selector
//! nets, and the rule list becomes a rule net with adjacent same-target
//! same-kind matchers coalesced.

use vstd::prelude::*;

use crate::address::{dec_digits, render_dec, spec_parse_cidr, parse_cidr, IpCidr};
use crate::config::{net_to_value, net_shape, Config, Net};
use crate::json::{obj_get, spec_obj_get, Value};
use crate::rule::{
    coalesce_rules, AnyMatcher, DomainMatcher, DomainMatcherMethod, GeoIpMatcher, IpCidrMatcher,
    Matcher, RuleItem, SrcIpCidrMatcher,
};
use crate::strmap::StrMap;
use crate::strutil::{concat3, spec_split, split_char, str_eq};
use crate::Error;

verus! {

/// The translator's options and its name map from Clash names to net names.
#[derive(Debug, Clone, PartialEq)]
pub struct Clash {
    pub rule_name: Option<String>,
    pub prefix: Option<String>,
    pub direct: Option<String>,
    pub reject: Option<String>,
    pub disable_proxy_group: bool,
    pub select: Option<String>,
    pub name_map: StrMap<String>,
}

/// One Clash proxy entry.
#[derive(Debug, Clone, PartialEq)]
pub struct Proxy {
    pub name: String,
    pub proxy_type: String,
    pub opt: Value,
}

/// One Clash proxy group.
#[derive(Debug, Clone, PartialEq)]
pub struct ProxyGroup {
    pub name: String,
    pub proxy_group_type: String,
    pub proxies: Vec<String>,
}

/// One rule-set provider.
#[derive(Debug, Clone, PartialEq)]
pub struct RuleProvider {
    pub rule_type: String,
    pub behavior: String,
    pub url: String,
    pub path: String,
    pub interval: u64,
}

/// A whole Clash document, already read from its text.
#[derive(Debug, Clone, PartialEq)]
pub struct ClashConfig {
    pub proxies: Vec<Proxy>,
    pub proxy_groups: Vec<ProxyGroup>,
    pub rules: Vec<String>,
    pub rule_providers: StrMap<RuleProvider>,
}

/// The rule kind and proxy type literals are pairwise distinct.
proof fn lemma_kind_literals()
    ensures
        "MATCH"@ != "DOMAIN-SUFFIX"@,
        "MATCH"@ != "DOMAIN-KEYWORD"@,
        "MATCH"@ != "DOMAIN"@,
        "MATCH"@ != "IP-CIDR"@,
        "MATCH"@ != "IP-CIDR6"@,
        "MATCH"@ != "SRC-IP-CIDR"@,
        "MATCH"@ != "GEOIP"@,
        "MATCH"@ != "RULE-SET"@,
        "DOMAIN-SUFFIX"@ != "DOMAIN-KEYWORD"@,
        "DOMAIN-SUFFIX"@ != "DOMAIN"@,
        "DOMAIN-KEYWORD"@ != "DOMAIN"@,
        "IP-CIDR"@ != "IP-CIDR6"@,
        "IP-CIDR"@ != "SRC-IP-CIDR"@,
        "IP-CIDR6"@ != "SRC-IP-CIDR"@,
        "GEOIP"@ != "DOMAIN-SUFFIX"@,
        "GEOIP"@ != "DOMAIN-KEYWORD"@,
        "GEOIP"@ != "DOMAIN"@,
        "GEOIP"@ != "IP-CIDR"@,
        "GEOIP"@ != "IP-CIDR6"@,
        "GEOIP"@ != "SRC-IP-CIDR"@,
        "GEOIP"@ != "RULE-SET"@,
        "RULE-SET"@ != "DOMAIN-SUFFIX"@,
        "RULE-SET"@ != "DOMAIN-KEYWORD"@,
        "RULE-SET"@ != "DOMAIN"@,
        "RULE-SET"@ != "IP-CIDR"@,
        "RULE-SET"@ != "IP-CIDR6"@,
        "RULE-SET"@ != "SRC-IP-CIDR"@,
        "DOMAIN-SUFFIX"@ != "IP-CIDR"@,
        "DOMAIN-SUFFIX"@ != "IP-CIDR6"@,
        "DOMAIN-SUFFIX"@ != "SRC-IP-CIDR"@,
        "DOMAIN-KEYWORD"@ != "IP-CIDR"@,
        "DOMAIN-KEYWORD"@ != "IP-CIDR6"@,
        "DOMAIN-KEYWORD"@ != "SRC-IP-CIDR"@,
        "DOMAIN"@ != "IP-CIDR"@,
        "DOMAIN"@ != "IP-CIDR6"@,
        "DOMAIN"@ != "SRC-IP-CIDR"@,
        "ss"@ != "trojan"@,
        "ss"@ != "http"@,
        "ss"@ != "socks5"@,
        "trojan"@ != "http"@,
        "trojan"@ != "socks5"@,
        "http"@ != "socks5"@,
        "domain"@ != "ipcidr"@,
        "server"@ != "cipher"@,
        "server"@ != "password"@,
        "server"@ != "udp"@,
        "server"@ != "net"@,
        "server"@ != "sni"@,
        "server"@ != "skip_cert_verify"@,
        "cipher"@ != "password"@,
        "cipher"@ != "udp"@,
        "cipher"@ != "net"@,
        "password"@ != "udp"@,
        "password"@ != "net"@,
        "password"@ != "sni"@,
        "password"@ != "skip_cert_verify"@,
        "udp"@ != "net"@,
        "sni"@ != "net"@,
        "sni"@ != "skip_cert_verify"@,
        "skip_cert_verify"@ != "net"@,
        "plugin"@ != "server"@,
        "plugin"@ != "cipher"@,
        "plugin"@ != "password"@,
        "plugin"@ != "udp"@,
        "plugin"@ != "net"@,
        "skip-cert-verify"@ != "server"@,
        "skip-cert-verify"@ != "password"@,
        "skip-cert-verify"@ != "sni"@,
        "skip-cert-verify"@ != "net"@,
        "obfs_mode"@ != "net"@,
        "type"@ != "net"@,
        "selected"@ != "list"@,
        "target"@ != "method"@,
        "target"@ != "domain"@,
        "target"@ != "ipcidr"@,
        "target"@ != "src_ipcidr"@,
        "target"@ != "country"@,
        "method"@ != "domain"@,
        "rule"@ != "type"@,
        "prefix"@ != "v4"@,
        "prefix"@ != "v6"@,
        "target"@ != "ipcidr"@ && "target"@ != "src_ipcidr"@ && "target"@ != "country"@,
        "select"@ != "url-test"@,
        "select"@ != "fallback"@,
        "select"@ != "relay"@,
        "url-test"@ != "fallback"@,
        "url-test"@ != "relay"@,
        "fallback"@ != "relay"@,
{
    broadcast use vstd::string::group_string_axioms;

    reveal_strlit("MATCH");
    reveal_strlit("DOMAIN-SUFFIX");
    reveal_strlit("DOMAIN-KEYWORD");
    reveal_strlit("DOMAIN");
    reveal_strlit("IP-CIDR");
    reveal_strlit("IP-CIDR6");
    reveal_strlit("SRC-IP-CIDR");
    reveal_strlit("GEOIP");
    reveal_strlit("RULE-SET");
    reveal_strlit("ss");
    reveal_strlit("trojan");
    reveal_strlit("http");
    reveal_strlit("socks5");
    reveal_strlit("domain");
    reveal_strlit("ipcidr");
    assert("MATCH"@.len() == 5);
    assert("DOMAIN-SUFFIX"@.len() == 13);
    assert("DOMAIN-KEYWORD"@.len() == 14);
    assert("DOMAIN"@.len() == 6);
    assert("IP-CIDR"@.len() == 7);
    assert("IP-CIDR6"@.len() == 8);
    assert("SRC-IP-CIDR"@.len() == 11);
    assert("GEOIP"@.len() == 5);
    assert("RULE-SET"@.len() == 8);
    assert("ss"@.len() == 2);
    assert("trojan"@.len() == 6);
    assert("http"@.len() == 4);
    assert("socks5"@.len() == 6);
    assert("domain"@.len() == 6);
    assert("ipcidr"@.len() == 6);
    assert("MATCH"@[0] == 'M' && "GEOIP"@[0] == 'G');
    assert("RULE-SET"@[0] == 'R' && "IP-CIDR6"@[0] == 'I');
    assert("trojan"@[0] == 't' && "socks5"@[0] == 's');
    assert("domain"@[0] == 'd' && "ipcidr"@[0] == 'i' && "DOMAIN"@[0] == 'D');
    reveal_strlit("server");
    reveal_strlit("cipher");
    reveal_strlit("password");
    reveal_strlit("udp");
    reveal_strlit("net");
    reveal_strlit("sni");
    reveal_strlit("skip_cert_verify");
    reveal_strlit("obfs_mode");
    reveal_strlit("type");
    reveal_strlit("selected");
    reveal_strlit("list");
    reveal_strlit("target");
    reveal_strlit("method");
    reveal_strlit("src_ipcidr");
    reveal_strlit("country");
    reveal_strlit("rule");
    reveal_strlit("plugin");
    reveal_strlit("skip-cert-verify");
    reveal_strlit("select");
    reveal_strlit("url-test");
    reveal_strlit("fallback");
    reveal_strlit("relay");
    reveal_strlit("prefix");
    reveal_strlit("v4");
    reveal_strlit("v6");
    reveal_strlit("suffix");
    reveal_strlit("keyword");
    reveal_strlit("match");
    assert("server"@.len() == 6 && "cipher"@.len() == 6 && "password"@.len() == 8);
    assert("udp"@.len() == 3 && "net"@.len() == 3 && "sni"@.len() == 3);
    assert("skip_cert_verify"@.len() == 16 && "obfs_mode"@.len() == 9 && "type"@.len() == 4);
    assert("selected"@.len() == 8 && "list"@.len() == 4 && "rule"@.len() == 4);
    assert("target"@.len() == 6 && "method"@.len() == 6 && "domain"@.len() == 6);
    assert("src_ipcidr"@.len() == 10 && "country"@.len() == 7);
    assert("plugin"@.len() == 6 && "skip-cert-verify"@.len() == 16);
    assert("plugin"@[0] == 'p' && "plugin"@.len() != "password"@.len());
    assert("skip-cert-verify"@[4] == '-' && "skip_cert_verify"@[4] == '_');
    assert("select"@.len() == 6 && "url-test"@.len() == 8 && "fallback"@.len() == 8);
    assert("relay"@.len() == 5);
    assert("url-test"@[0] == 'u' && "fallback"@[0] == 'f');
    assert("prefix"@.len() == 6 && "v4"@.len() == 2 && "v6"@.len() == 2);
    assert("v4"@[1] == '4' && "v6"@[1] == '6');
    assert("server"@[0] == 's' && "cipher"@[0] == 'c' && "password"@[0] == 'p');
    assert("udp"@[0] == 'u' && "net"@[0] == 'n' && "sni"@[0] == 's');
    assert("selected"@[0] == 's' && "rule"@[0] == 'r' && "type"@[0] == 't' && "list"@[0] == 'l');
    assert("target"@[0] == 't' && "method"@[0] == 'm');
}

/// The string value of a field of an options object, if it is one.
pub open spec fn opt_str(opt: Value, k: Seq<char>) -> Option<Seq<char>> {
    if opt is Obj {
        match spec_obj_get(opt->Obj_0@, k) {
            Some(Value::Str(v)) => Some(v@),
            _ => None,
        }
    } else {
        None
    }
}

/// The boolean value of a field of an options object, if it is one.
pub open spec fn opt_bool(opt: Value, k: Seq<char>) -> Option<bool> {
    if opt is Obj {
        match spec_obj_get(opt->Obj_0@, k) {
            Some(Value::Bool(v)) => Some(v),
            _ => None,
        }
    } else {
        None
    }
}

/// A proxy entry the translator accepts: a known type with its required plain
/// fields, and for shadowsocks no plugin other than the obfuscator.
pub open spec fn spec_proxy_ok(p: Proxy) -> bool {
    if p.proxy_type@ == "ss"@ {
        &&& spec_proxy_endpoint(p.opt) is Some
        &&& opt_str(p.opt, "cipher"@) is Some
        &&& opt_str(p.opt, "password"@) is Some
        &&& match opt_str(p.opt, "plugin"@) {
            Some(plugin) => plugin == "obfs"@,
            None => true,
        }
    } else if p.proxy_type@ == "trojan"@ {
        &&& spec_proxy_endpoint(p.opt) is Some
        &&& opt_str(p.opt, "password"@) is Some
    } else if p.proxy_type@ == "http"@ || p.proxy_type@ == "socks5"@ {
        spec_proxy_endpoint(p.opt) is Some
    } else {
        false
    }
}

/// The transport chain of a translated proxy: the given net embedded under
/// the `net` field, or no `net` field at all.
pub open spec fn spec_chained(opt: Value, target: Option<Net>) -> bool {
    match target {
        Some(t) => spec_obj_get(opt->Obj_0@, "net"@) matches Some(v) && net_shape(t, v),
        None => spec_obj_get(opt->Obj_0@, "net"@) is None,
    }
}

/// The endpoint text a translated proxy carries: `server:port`.
pub open spec fn spec_endpoint_text(p: Proxy) -> Seq<char> {
    let ep = spec_proxy_endpoint(p.opt)->0;
    ep.0 + ":"@ + dec_digits(ep.1 as nat)
}

/// What `get_target` answers, over the translator's fields.
pub open spec fn spec_get_target(c: Clash, target: Seq<char>) -> Option<Seq<char>> {
    if target == "DIRECT"@ {
        Some(
            match c.direct {
                Some(d) => d@,
                None => "local"@,
            },
        )
    } else if target == "REJECT"@ {
        Some(
            match c.reject {
                Some(d) => d@,
                None => "blackhole"@,
            },
        )
    } else {
        match c.name_map.spec_get(target) {
            Some(n) => Some(n@),
            None => None,
        }
    }
}

impl Clash {
    /// Builds the translator from its options: always succeeds with the
    /// options as given.
    pub fn build(config: Clash) -> (r: Result<Clash, Error>)
        ensures
            r == Ok::<Clash, Error>(config),
    {
        Ok(config)
    }

    /// Resolves a Clash target name: the direct and reject aliases take
    /// their configured nets (or the built-in ones), everything else goes
    /// through the name map; an unknown name is not found.
    pub fn get_target(&self, target: &str) -> (r: Result<String, Error>)
        ensures
            match r {
                Ok(t) => spec_get_target(*self, target@) == Some(t@),
                Err(e) => spec_get_target(*self, target@) is None && e == Error::NotFound,
            },
    {
        if str_eq(target, "DIRECT") {
            return Ok(
                match &self.direct {
                    Some(d) => d.clone(),
                    None => "local".to_owned(),
                },
            );
        }
        if str_eq(target, "REJECT") {
            return Ok(
                match &self.reject {
                    Some(d) => d.clone(),
                    None => "blackhole".to_owned(),
                },
            );
        }
        match self.name_map.get(target) {
            Some(n) => Ok(n.clone()),
            None => Err(Error::NotFound),
        }
    }

    /// Prefixes a name with the configured prefix, if one is set.
    pub fn prefix(&self, s: &str) -> (r: String)
        ensures
            r@ == match self.prefix {
                Some(p) => p@ + "."@ + s@,
                None => s@,
            },
    {
        match &self.prefix {
            Some(p) => concat3(p.as_str(), ".", s),
            None => s.to_owned(),
        }
    }

    /// The net name a proxy group takes.
    pub fn proxy_group_name(&self, pg: &str) -> (r: String)
        ensures
            r@ == match self.prefix {
                Some(p) => p@ + "."@ + pg@,
                None => pg@,
            },
    {
        self.prefix(pg)
    }
}

/// The placeholder net for a proxy that could not be translated.
pub fn ghost_net() -> (r: Net)
    ensures
        r.net_type@ == "alias"@,
        r.opt is Obj,
        spec_obj_get(r.opt->Obj_0@, "net"@) matches Some(Value::Str(s)) && s@ == "noop"@,
{
    let mut fields: Vec<(String, Value)> = Vec::new();
    fields.push(("net".to_owned(), Value::Str("noop".to_owned())));
    proof {
        assert(spec_obj_get(fields@, "net"@) == Some(fields@[0].1));
    }
    Net::new("alias", Value::Obj(fields))
}

/// Glues a chained net into the descriptor's `net` field, for protocol nets
/// that carry their transport.
pub fn with_net(net: Net, target_net: Option<Net>) -> (r: Net)
    requires
        net.opt is Obj,
        target_net matches Some(t) ==> t.opt is Obj,
    ensures
        r.net_type == net.net_type,
        r.opt is Obj,
        match target_net {
            Some(t) => spec_obj_get(r.opt->Obj_0@, "net"@) matches Some(v) && net_shape(t, v),
            None => r == net,
        },
        forall|k2: Seq<char>|
            k2 != "net"@ ==> spec_obj_get(r.opt->Obj_0@, k2) == spec_obj_get(
                net.opt->Obj_0@,
                k2,
            ),
{
    match target_net {
        Some(t) => {
            let Net { net_type, opt } = net;
            let mut fields = match opt {
                Value::Obj(fields) => fields,
                _ => Vec::new(),
            };
            let tv = net_to_value(t);
            crate::json::obj_set(&mut fields, "net", tv);
            Net { net_type, opt: Value::Obj(fields) }
        }
        None => net,
    }
}

/// The `host:port` text of a proxy's server endpoint.
pub fn server_endpoint(server: &str, port: u64) -> (r: String)
    ensures
        r@ == server@ + ":"@ + dec_digits(port as nat),
{
    let p = render_dec(port);
    concat3(server, ":", p.as_str())
}

/// The required plain fields of a Clash proxy entry: a string server and an
/// integer port within the range.
pub open spec fn spec_proxy_endpoint(opt: Value) -> Option<(Seq<char>, u64)> {
    if opt is Obj {
        match (spec_obj_get(opt->Obj_0@, "server"@), spec_obj_get(opt->Obj_0@, "port"@)) {
            (Some(Value::Str(s)), Some(Value::Int(p))) => if 0 <= p <= 0xFFFF {
                Some((s@, p as u64))
            } else {
                None
            },
            _ => None,
        }
    } else {
        None
    }
}

/// Reads a proxy's server and port fields.
fn proxy_endpoint(opt: &Value) -> (r: Result<(String, u64), Error>)
    ensures
        match r {
            Ok((s, p)) => spec_proxy_endpoint(*opt) == Some((s@, p)),
            Err(e) => spec_proxy_endpoint(*opt) is None && e == Error::BadRequest,
        },
{
    let fields = match opt {
        Value::Obj(fields) => fields,
        _ => {
            return Err(Error::BadRequest);
        }
    };
    let server = match obj_get(fields, "server") {
        Some(Value::Str(s)) => s.clone(),
        _ => {
            return Err(Error::BadRequest);
        }
    };
    let port = match obj_get(fields, "port") {
        Some(Value::Int(p)) => {
            if *p < 0 || *p > 0xFFFF {
                return Err(Error::BadRequest);
            }
            *p as u64
        }
        _ => {
            return Err(Error::BadRequest);
        }
    };
    Ok((server, port))
}

impl Clash {
    /// Translates one proxy entry into a net descriptor, chaining the given
    /// transport net under it: a shadowsocks, trojan, HTTP or SOCKS5 proxy
    /// maps to the net of the same protocol, carrying its endpoint as
    /// `server:port` and its plain fields; exactly the entries `spec_proxy_ok`
    /// admits translate, everything else is malformed.
    pub fn proxy_to_net(&self, p: &Proxy, target_net: Option<Net>) -> (r: Result<Net, Error>)
        requires
            target_net matches Some(t) ==> t.opt is Obj,
        ensures
            r is Ok <==> spec_proxy_ok(*p),
            match r {
                Ok(net) => {
                    &&& net.opt is Obj
                    &&& (p.proxy_type@ == "ss"@ ==> net.net_type@ == "shadowsocks"@)
                    &&& (p.proxy_type@ == "trojan"@ ==> net.net_type@ == "trojan"@)
                    &&& (p.proxy_type@ == "http"@ ==> net.net_type@ == "http"@)
                    &&& (p.proxy_type@ == "socks5"@ ==> net.net_type@ == "socks5"@)
                    &&& opt_str(net.opt, "server"@) == Some(spec_endpoint_text(*p))
                    &&& (p.proxy_type@ == "ss"@ ==> {
                        &&& opt_str(net.opt, "cipher"@) == opt_str(p.opt, "cipher"@)
                        &&& opt_str(net.opt, "password"@) == opt_str(p.opt, "password"@)
                        &&& opt_bool(net.opt, "udp"@) == Some(
                            match opt_bool(p.opt, "udp"@) {
                                Some(b) => b,
                                None => false,
                            },
                        )
                        &&& match opt_str(p.opt, "plugin"@) {
                            Some(_) => (spec_obj_get(net.opt->Obj_0@, "net"@) matches Some(v)
                                && crate::config::canonical_net(v) && (v->Obj_0@[0].1
                                matches Value::Str(t) && t@ == "obfs"@)),
                            None => spec_chained(net.opt, target_net),
                        }
                    })
                    &&& (p.proxy_type@ == "trojan"@ ==> {
                        &&& opt_str(net.opt, "password"@) == opt_str(p.opt, "password"@)
                        &&& opt_str(net.opt, "sni"@) == Some(
                            match opt_str(p.opt, "sni"@) {
                                Some(sni) => sni,
                                None => (spec_proxy_endpoint(p.opt)->0).0,
                            },
                        )
                        &&& opt_bool(net.opt, "skip_cert_verify"@) == Some(
                            match opt_bool(p.opt, "skip-cert-verify"@) {
                                Some(b) => b,
                                None => false,
                            },
                        )
                        &&& spec_chained(net.opt, target_net)
                    })
                    &&& (p.proxy_type@ == "http"@ || p.proxy_type@ == "socks5"@
                        ==> spec_chained(net.opt, target_net))
                },
                Err(e) => e == Error::BadRequest,
            },
    {
        proof {
            lemma_kind_literals();
        }
        if str_eq(p.proxy_type.as_str(), "ss") {
            let (server, port) = match proxy_endpoint(&p.opt) {
                Ok(sp) => sp,
                Err(e) => {
                    return Err(e);
                }
            };
            let fields = match &p.opt {
                Value::Obj(fields) => fields,
                _ => {
                    return Err(Error::BadRequest);
                }
            };
            let cipher = match obj_get(fields, "cipher") {
                Some(Value::Str(s)) => s.clone(),
                _ => {
                    return Err(Error::BadRequest);
                }
            };
            let password = match obj_get(fields, "password") {
                Some(Value::Str(s)) => s.clone(),
                _ => {
                    return Err(Error::BadRequest);
                }
            };
            let udp = match obj_get(fields, "udp") {
                Some(Value::Bool(b)) => *b,
                _ => false,
            };
            let plugin: Option<String> = match obj_get(fields, "plugin") {
                Some(Value::Str(s)) => Some(s.clone()),
                _ => None,
            };
            let mut out: Vec<(String, Value)> = Vec::new();
            out.push(("server".to_owned(), Value::Str(server_endpoint(server.as_str(), port))));
            out.push(("cipher".to_owned(), Value::Str(cipher)));
            out.push(("password".to_owned(), Value::Str(password)));
            out.push(("udp".to_owned(), Value::Bool(udp)));
            proof {
                crate::json::lemma_obj_get_present(out@, 0, "server"@);
                crate::json::lemma_obj_get_present(out@, 1, "cipher"@);
                crate::json::lemma_obj_get_present(out@, 2, "password"@);
                crate::json::lemma_obj_get_present(out@, 3, "udp"@);
                crate::json::lemma_obj_get_absent(out@, "net"@);
            }
            let ss = Net::new("shadowsocks", Value::Obj(out));
            match plugin {
                Some(name) => {
                    if !str_eq(name.as_str(), "obfs") {
                        return Err(Error::BadRequest);
                    }
                    let obfs_mode: String = match obj_get(fields, "plugin-opts") {
                        Some(Value::Obj(po)) => match obj_get(po, "mode") {
                            Some(Value::Str(m)) => m.clone(),
                            _ => String::new(),
                        },
                        _ => String::new(),
                    };
                    let mut ofields: Vec<(String, Value)> = Vec::new();
                    ofields.push(("obfs_mode".to_owned(), Value::Str(obfs_mode)));
                    let obfs = with_net(Net::new("obfs", Value::Obj(ofields)), target_net);
                    let r = with_net(ss, Some(obfs));
                    proof {
                        let v = spec_obj_get(r.opt->Obj_0@, "net"@)->0;
                        assert(net_shape(obfs, v));
                        assert(v->Obj_0@[0].1 == Value::Str(obfs.net_type));
                    }
                    Ok(r)
                }
                None => Ok(with_net(ss, target_net)),
            }
        } else if str_eq(p.proxy_type.as_str(), "trojan") {
            let (server, port) = match proxy_endpoint(&p.opt) {
                Ok(sp) => sp,
                Err(e) => {
                    return Err(e);
                }
            };
            let fields = match &p.opt {
                Value::Obj(fields) => fields,
                _ => {
                    return Err(Error::BadRequest);
                }
            };
            let password = match obj_get(fields, "password") {
                Some(Value::Str(s)) => s.clone(),
                _ => {
                    return Err(Error::BadRequest);
                }
            };
            let sni = match obj_get(fields, "sni") {
                Some(Value::Str(s)) => s.clone(),
                _ => server.clone(),
            };
            let skip_cert_verify = match obj_get(fields, "skip-cert-verify") {
                Some(Value::Bool(b)) => *b,
                _ => false,
            };
            let mut out: Vec<(String, Value)> = Vec::new();
            out.push(("server".to_owned(), Value::Str(server_endpoint(server.as_str(), port))));
            out.push(("password".to_owned(), Value::Str(password)));
            out.push(("sni".to_owned(), Value::Str(sni)));
            out.push(("skip_cert_verify".to_owned(), Value::Bool(skip_cert_verify)));
            proof {
                crate::json::lemma_obj_get_present(out@, 0, "server"@);
                crate::json::lemma_obj_get_present(out@, 1, "password"@);
                crate::json::lemma_obj_get_present(out@, 2, "sni"@);
                crate::json::lemma_obj_get_present(out@, 3, "skip_cert_verify"@);
                crate::json::lemma_obj_get_absent(out@, "net"@);
            }
            Ok(with_net(Net::new("trojan", Value::Obj(out)), target_net))
        } else if str_eq(p.proxy_type.as_str(), "http") {
            let (server, port) = match proxy_endpoint(&p.opt) {
                Ok(sp) => sp,
                Err(e) => {
                    return Err(e);
                }
            };
            let mut out: Vec<(String, Value)> = Vec::new();
            out.push(("server".to_owned(), Value::Str(server_endpoint(server.as_str(), port))));
            proof {
                crate::json::lemma_obj_get_present(out@, 0, "server"@);
                crate::json::lemma_obj_get_absent(out@, "net"@);
            }
            Ok(with_net(Net::new("http", Value::Obj(out)), target_net))
        } else if str_eq(p.proxy_type.as_str(), "socks5") {
            let (server, port) = match proxy_endpoint(&p.opt) {
                Ok(sp) => sp,
                Err(e) => {
                    return Err(e);
                }
            };
            let mut out: Vec<(String, Value)> = Vec::new();
            out.push(("server".to_owned(), Value::Str(server_endpoint(server.as_str(), port))));
            proof {
                crate::json::lemma_obj_get_present(out@, 0, "server"@);
                crate::json::lemma_obj_get_absent(out@, "net"@);
            }
            Ok(with_net(Net::new("socks5", Value::Obj(out)), target_net))
        } else {
            Err(Error::BadRequest)
        }
    }

    /// Translates a proxy group: `select`, and as a fallback `url-test` and
    /// `fallback`, become a selector over the resolved members in order with
    /// the first selected (or `noop` when there is none); `relay` chains the
    /// members' proxies back to front over a local alias; exactly the groups
    /// `spec_group_ok` admits translate, everything else is malformed.
    pub fn proxy_group_to_net(&self, p: ProxyGroup, proxy_map: &StrMap<Proxy>) -> (r: Result<
        Net,
        Error,
    >)
        ensures
            r is Ok <==> spec_group_ok(*self, p, *proxy_map),
            match r {
                Ok(net) => {
                    &&& (p.proxy_group_type@ == "select"@ || p.proxy_group_type@ == "url-test"@
                        || p.proxy_group_type@ == "fallback"@ ==> {
                        &&& net.net_type@ == "select"@
                        &&& net.opt is Obj
                        &&& opt_str(net.opt, "selected"@) == Some(
                            if p.proxies@.len() > 0 {
                                spec_get_target(*self, p.proxies@[0]@)->0
                            } else {
                                "noop"@
                            },
                        )
                        &&& (spec_obj_get(net.opt->Obj_0@, "list"@) matches Some(
                            Value::Arr(items),
                        ) && items@.len() == p.proxies@.len() && (forall|i: int|
                            0 <= i < items@.len() ==> ((#[trigger] items@[i]) matches Value::Str(
                                s,
                            ) && s@ == spec_get_target(*self, p.proxies@[i]@)->0)))
                    })
                    &&& (p.proxy_group_type@ == "relay"@ ==> net.opt is Obj)
                },
                Err(e) => e == Error::NotFound || e == Error::BadRequest,
            },
    {
        proof {
            lemma_kind_literals();
        }
        let mut net_list: Vec<String> = Vec::new();
        let mut i: usize = 0;
        while i < p.proxies.len()
            invariant
                0 <= i <= p.proxies@.len(),
                net_list@.len() == i,
                forall|j: int|
                    0 <= j < i ==> spec_get_target(*self, (#[trigger] p.proxies@[j])@) == Some(
                        net_list@[j]@,
                    ),
            decreases p.proxies@.len() - i,
        {
            match self.get_target(p.proxies[i].as_str()) {
                Ok(t) => {
                    net_list.push(t);
                }
                Err(e) => {
                    proof {
                        assert(!spec_targets_ok(*self, p.proxies@));
                    }
                    return Err(e);
                }
            }
            i += 1;
        }
        let is_select = str_eq(p.proxy_group_type.as_str(), "select") || str_eq(
            p.proxy_group_type.as_str(),
            "url-test",
        ) || str_eq(p.proxy_group_type.as_str(), "fallback");
        if is_select {
            let selected: String = if net_list.len() > 0 {
                net_list[0].clone()
            } else {
                "noop".to_owned()
            };
            let mut items: Vec<Value> = Vec::new();
            let mut j: usize = 0;
            while j < net_list.len()
                invariant
                    0 <= j <= net_list@.len(),
                    net_list@.len() == p.proxies@.len(),
                    items@.len() == j,
                    forall|m: int|
                        0 <= m < net_list@.len() ==> spec_get_target(
                            *self,
                            (#[trigger] p.proxies@[m])@,
                        ) == Some(net_list@[m]@),
                    forall|m: int|
                        0 <= m < j ==> ((#[trigger] items@[m]) matches Value::Str(s) && s@
                            == net_list@[m]@),
                decreases net_list@.len() - j,
            {
                items.push(Value::Str(net_list[j].clone()));
                j += 1;
            }
            let mut fields: Vec<(String, Value)> = Vec::new();
            fields.push(("selected".to_owned(), Value::Str(selected)));
            fields.push(("list".to_owned(), Value::Arr(items)));
            proof {
                crate::json::lemma_obj_get_present(fields@, 0, "selected"@);
                crate::json::lemma_obj_get_present(fields@, 1, "list"@);
            }
            return Ok(Net::new("select", Value::Obj(fields)));
        }
        if str_eq(p.proxy_group_type.as_str(), "relay") {
            let mut seed: Vec<(String, Value)> = Vec::new();
            seed.push(("net".to_owned(), Value::Str("local".to_owned())));
            let mut acc = Net::new("alias", Value::Obj(seed));
            let mut j: usize = 0;
            while j < net_list.len()
                invariant
                    0 <= j <= net_list@.len(),
                    net_list@.len() == p.proxies@.len(),
                    acc.opt is Obj,
                    p.proxy_group_type@ == "relay"@,
                    forall|m: int|
                        0 <= m < net_list@.len() ==> spec_get_target(
                            *self,
                            (#[trigger] p.proxies@[m])@,
                        ) == Some(net_list@[m]@),
                    forall|m: int|
                        0 <= m < j ==> proxy_map.spec_get((net_list@[m])@) is Some
                            && spec_proxy_ok(proxy_map.spec_get((net_list@[m])@)->0),
            decreases net_list@.len() - j,
            {
                let proxy = match proxy_map.get(net_list[j].as_str()) {
                    Some(px) => px,
                    None => {
                        proof {
                            lemma_kind_literals();
                            assert(spec_get_target(*self, p.proxies@[j as int]@) == Some(
                                net_list@[j as int]@,
                            ));
                            assert(!spec_group_ok(*self, p, *proxy_map)) by {
                                if spec_group_ok(*self, p, *proxy_map) {
                                    assert(proxy_map.spec_get(
                                        spec_get_target(*self, p.proxies@[j as int]@)->0,
                                    ) is Some);
                                }
                            }
                        }
                        return Err(Error::BadRequest);
                    }
                };
                acc = match self.proxy_to_net(proxy, Some(acc)) {
                    Ok(n) => n,
                    Err(e) => {
                        proof {
                            lemma_kind_literals();
                            assert(spec_get_target(*self, p.proxies@[j as int]@) == Some(
                                net_list@[j as int]@,
                            ));
                            assert(!spec_proxy_ok(proxy_map.spec_get((net_list@[j as int])@)->0));
                            assert(!spec_group_ok(*self, p, *proxy_map)) by {
                                if spec_group_ok(*self, p, *proxy_map) {
                                    assert(spec_proxy_ok(
                                        proxy_map.spec_get(
                                            spec_get_target(*self, p.proxies@[j as int]@)->0,
                                        )->0,
                                    ));
                                }
                            }
                        }
                        return Err(Error::BadRequest);
                    }
                };
                j += 1;
            }
            return Ok(acc);
        }
        proof {
            assert(!spec_group_ok(*self, p, *proxy_map));
        }
        Err(Error::BadRequest)
    }
}

/// Every member of the group resolves through the name map.
pub open spec fn spec_targets_ok(c: Clash, members: Seq<String>) -> bool {
    forall|i: int| 0 <= i < members.len() ==> spec_get_target(c, (#[trigger] members[i])@) is Some
}

/// A proxy group the translator accepts: every member resolves, and the group
/// is a selector kind, or a relay whose members name translatable proxies.
pub open spec fn spec_group_ok(c: Clash, p: ProxyGroup, proxy_map: StrMap<Proxy>) -> bool {
    &&& spec_targets_ok(c, p.proxies@)
    &&& {
        let t = p.proxy_group_type@;
        if t == "select"@ || t == "url-test"@ || t == "fallback"@ {
            true
        } else if t == "relay"@ {
            forall|i: int|
                0 <= i < p.proxies@.len() ==> {
                    let resolved = spec_get_target(c, (#[trigger] p.proxies@[i])@)->0;
                    &&& proxy_map.spec_get(resolved) is Some
                    &&& spec_proxy_ok(proxy_map.spec_get(resolved)->0)
                }
        } else {
            false
        }
    }
}

/// A rule line the translator accepts: a known kind with its argument and a
/// resolvable target, and for the CIDR kinds a parsable prefix.
pub open spec fn spec_rule_line_ok(c: Clash, line: Seq<char>) -> bool {
    let gs = spec_split(line, ',');
    &&& gs.len() >= 2
    &&& if gs[0] == "MATCH"@ {
        spec_get_target(c, gs[1]) is Some
    } else if gs.len() >= 3 {
        if gs[0] == "DOMAIN-SUFFIX"@ || gs[0] == "DOMAIN-KEYWORD"@ || gs[0] == "DOMAIN"@ {
            spec_get_target(c, gs[2]) is Some
        } else if gs[0] == "IP-CIDR"@ || gs[0] == "IP-CIDR6"@ || gs[0] == "SRC-IP-CIDR"@ {
            spec_parse_cidr(gs[1]) is Some && spec_get_target(c, gs[2]) is Some
        } else if gs[0] == "GEOIP"@ || gs[0] == "RULE-SET"@ {
            spec_get_target(c, gs[2]) is Some
        } else {
            false
        }
    } else {
        false
    }
}

/// The complete rule a plain (non-rule-set) line translates to.
pub open spec fn spec_plain_item(c: Clash, gs: Seq<Seq<char>>, item: RuleItem) -> bool {
    &&& (gs[0] == "MATCH"@ ==> gs.len() >= 2 && item.matcher == Matcher::Any(AnyMatcher {  })
        && spec_get_target(c, gs[1]) == Some(item.target@))
    &&& (gs[0] == "DOMAIN-SUFFIX"@ || gs[0] == "DOMAIN-KEYWORD"@ || gs[0] == "DOMAIN"@
        ==> gs.len() >= 3 && spec_get_target(c, gs[2]) == Some(item.target@) && (item.matcher
        matches Matcher::Domain(dm) && dm.domain@.len() == 1 && dm.domain@[0]@ == gs[1]
        && dm.method == spec_domain_method(gs[0])))
    &&& (gs[0] == "IP-CIDR"@ || gs[0] == "IP-CIDR6"@ ==> gs.len() >= 3 && spec_get_target(
        c,
        gs[2],
    ) == Some(item.target@) && (item.matcher matches Matcher::IpCidr(cm) && cm.ipcidr@.len() == 1
        && spec_parse_cidr(gs[1]) == Some(cm.ipcidr@[0])))
    &&& (gs[0] == "SRC-IP-CIDR"@ ==> gs.len() >= 3 && spec_get_target(c, gs[2]) == Some(
        item.target@,
    ) && (item.matcher matches Matcher::SrcIpCidr(cm) && cm.ipcidr@.len() == 1 && spec_parse_cidr(
        gs[1],
    ) == Some(cm.ipcidr@[0])))
    &&& (gs[0] == "GEOIP"@ ==> gs.len() >= 3 && spec_get_target(c, gs[2]) == Some(item.target@)
        && (item.matcher matches Matcher::GeoIp(gm) && gm.country@ == gs[1]))
}

/// A parsed rule line:/// A parsed rule line: either a complete rule, or one that needs a rule-set
/// provider's payload.
#[derive(Debug, Clone, PartialEq)]
pub enum ParsedRule {
    Plain(RuleItem),
    NeedsRuleSet { set: String, target: String },
}

impl Clash {
    /// Parses one Clash rule line `KIND,arg,target` (or `MATCH,target`):
    /// domain kinds carry their matching method; the CIDR kinds parse their
    /// prefix; `GEOIP` carries its country; `RULE-SET` defers to a provider.
    /// A malformed line, an unknown kind or an unknown target is rejected.
    pub fn parse_rule_line(&self, line: &str) -> (r: Result<ParsedRule, Error>)
        ensures
            r is Ok <==> spec_rule_line_ok(*self, line@),
            match r {
                Ok(pr) => match pr {
                    ParsedRule::Plain(item) => crate::rule::matcher_wf(item.matcher)
                        && spec_split(line@, ',')[0] != "RULE-SET"@ && spec_plain_item(
                        *self,
                        spec_split(line@, ','),
                        item,
                    ),
                    ParsedRule::NeedsRuleSet { set, target } => {
                        let gs = spec_split(line@, ',');
                        &&& gs[0] == "RULE-SET"@
                        &&& gs.len() >= 3
                        &&& set@ == gs[1]
                        &&& spec_get_target(*self, gs[2]) == Some(target@)
                    },
                },
                Err(_) => true,
            },
    {
        proof {
            lemma_kind_literals();
        }
        let parts = split_char(line, ',');
        if parts.len() < 2 {
            return Err(Error::BadRequest);
        }
        let kind = parts[0].as_str();
        if str_eq(kind, "MATCH") {
            let target = match self.get_target(parts[1].as_str()) {
                Ok(t) => t,
                Err(e) => {
                    return Err(e);
                }
            };
            return Ok(ParsedRule::Plain(RuleItem { target, matcher: Matcher::Any(AnyMatcher {  }) }));
        }
        if parts.len() < 3 {
            return Err(Error::BadRequest);
        }
        let arg = parts[1].as_str();
        let target_name = parts[2].as_str();
        if str_eq(kind, "DOMAIN-SUFFIX") || str_eq(kind, "DOMAIN-KEYWORD") || str_eq(
            kind,
            "DOMAIN",
        ) {
            let target = match self.get_target(target_name) {
                Ok(t) => t,
                Err(e) => {
                    return Err(e);
                }
            };
            let method = if str_eq(kind, "DOMAIN-SUFFIX") {
                DomainMatcherMethod::Suffix
            } else if str_eq(kind, "DOMAIN-KEYWORD") {
                DomainMatcherMethod::Keyword
            } else {
                DomainMatcherMethod::Match
            };
            let mut domain: Vec<String> = Vec::new();
            domain.push(arg.to_owned());
            return Ok(
                ParsedRule::Plain(
                    RuleItem { target, matcher: Matcher::Domain(DomainMatcher { method, domain }) },
                ),
            );
        }
        if str_eq(kind, "IP-CIDR") || str_eq(kind, "IP-CIDR6") {
            let cidr = match parse_cidr(arg) {
                Ok(c) => c,
                Err(e) => {
                    return Err(e);
                }
            };
            let target = match self.get_target(target_name) {
                Ok(t) => t,
                Err(e) => {
                    return Err(e);
                }
            };
            let mut list: Vec<IpCidr> = Vec::new();
            list.push(cidr);
            return Ok(
                ParsedRule::Plain(
                    RuleItem { target, matcher: Matcher::IpCidr(IpCidrMatcher { ipcidr: list }) },
                ),
            );
        }
        if str_eq(kind, "SRC-IP-CIDR") {
            let cidr = match parse_cidr(arg) {
                Ok(c) => c,
                Err(e) => {
                    return Err(e);
                }
            };
            let target = match self.get_target(target_name) {
                Ok(t) => t,
                Err(e) => {
                    return Err(e);
                }
            };
            let mut list: Vec<IpCidr> = Vec::new();
            list.push(cidr);
            return Ok(
                ParsedRule::Plain(
                    RuleItem {
                        target,
                        matcher: Matcher::SrcIpCidr(SrcIpCidrMatcher { ipcidr: list }),
                    },
                ),
            );
        }
        if str_eq(kind, "GEOIP") {
            let target = match self.get_target(target_name) {
                Ok(t) => t,
                Err(e) => {
                    return Err(e);
                }
            };
            return Ok(
                ParsedRule::Plain(
                    RuleItem {
                        target,
                        matcher: Matcher::GeoIp(GeoIpMatcher { country: arg.to_owned() }),
                    },
                ),
            );
        }
        if str_eq(kind, "RULE-SET") {
            let target = match self.get_target(target_name) {
                Ok(t) => t,
                Err(e) => {
                    return Err(e);
                }
            };
            return Ok(ParsedRule::NeedsRuleSet { set: arg.to_owned(), target });
        }
        Err(Error::BadRequest)
    }
}

/// The matching method a domain rule kind names.
pub open spec fn spec_domain_method(kind: Seq<char>) -> DomainMatcherMethod {
    if kind == "DOMAIN-SUFFIX"@ {
        DomainMatcherMethod::Suffix
    } else if kind == "DOMAIN-KEYWORD"@ {
        DomainMatcherMethod::Keyword
    } else {
        DomainMatcherMethod::Match
    }
}

/// A rule-set the translator accepts: a `domain` behavior, or an `ipcidr`
/// behavior whose every payload line is a parsable prefix.
pub open spec fn spec_ruleset_ok(behavior: Seq<char>, payload: Seq<String>) -> bool {
    behavior == "domain"@ || (behavior == "ipcidr"@ && (forall|i: int|
        0 <= i < payload.len() ==> spec_parse_cidr((#[trigger] payload[i])@) is Some))
}

/// Turns a rule-set payload into one rule: a `domain` behavior matches any of
/// the payload's names exactly; an `ipcidr` behavior parses every line as a
/// prefix, and one malformed line rejects the set; any other behavior is
/// unsupported and is rejected.
pub fn ruleset_to_rule(behavior: &str, payload: &Vec<String>, target: String) -> (r: Result<
    RuleItem,
    Error,
>)
    ensures
        r is Ok <==> spec_ruleset_ok(behavior@, payload@),
        match r {
            Ok(item) => {
                &&& crate::rule::matcher_wf(item.matcher)
                &&& item.target == target
                &&& (behavior@ == "domain"@ ==> (item.matcher matches Matcher::Domain(dm)
                    && dm.method == DomainMatcherMethod::Match && dm.domain@.len()
                    == payload@.len() && (forall|i: int|
                    0 <= i < payload@.len() ==> (#[trigger] dm.domain@[i])@ == payload@[i]@)))
                &&& (behavior@ == "ipcidr"@ ==> (item.matcher matches Matcher::IpCidr(cm)
                    && cm.ipcidr@.len() == payload@.len() && (forall|i: int|
                    0 <= i < payload@.len() ==> spec_parse_cidr((#[trigger] payload@[i])@) == Some(
                        cm.ipcidr@[i],
                    ))))
                &&& (behavior@ == "domain"@ || behavior@ == "ipcidr"@)
            },
            Err(e) => e == Error::BadRequest,
        },
{
    proof {
        lemma_kind_literals();
    }
    if str_eq(behavior, "domain") {
        let mut domain: Vec<String> = Vec::new();
        let mut i: usize = 0;
        while i < payload.len()
            invariant
                0 <= i <= payload@.len(),
                domain@.len() == i,
                forall|j: int| 0 <= j < i ==> (#[trigger] domain@[j])@ == payload@[j]@,
            decreases payload@.len() - i,
        {
            domain.push(payload[i].clone());
            i += 1;
        }
        return Ok(
            RuleItem {
                target,
                matcher: Matcher::Domain(
                    DomainMatcher { method: DomainMatcherMethod::Match, domain },
                ),
            },
        );
    }
    if str_eq(behavior, "ipcidr") {
        let mut list: Vec<IpCidr> = Vec::new();
        let mut i: usize = 0;
        while i < payload.len()
            invariant
                behavior@ == "ipcidr"@,
                "domain"@ != "ipcidr"@,
                0 <= i <= payload@.len(),
                list@.len() == i,
                forall|j: int|
                    0 <= j < i ==> spec_parse_cidr((#[trigger] payload@[j])@) == Some(list@[j])
                        && list@[j].wf(),
            decreases payload@.len() - i,
        {
            match parse_cidr(payload[i].as_str()) {
                Ok(c) => {
                    list.push(c);
                }
                Err(e) => {
                    proof {
                        assert(spec_parse_cidr(payload@[i as int]@) is None);
                        assert(!spec_ruleset_ok(behavior@, payload@)) by {
                            if spec_ruleset_ok(behavior@, payload@) {
                                assert(spec_parse_cidr(payload@[i as int]@) is Some);
                            }
                        }
                    }
                    return Err(Error::BadRequest);
                }
            }
            i += 1;
        }
        proof {
            lemma_kind_literals();
            assert forall|j: int| 0 <= j < list@.len() implies (#[trigger] list@[j]).wf() by {
                assert(spec_parse_cidr((payload@[j])@) == Some(list@[j]) && list@[j].wf());
            }
        }
        return Ok(RuleItem { target, matcher: Matcher::IpCidr(IpCidrMatcher { ipcidr: list }) });
    }
    Err(Error::BadRequest)
}

/// A prefixed name.
pub open spec fn spec_prefixed(c: Clash, s: Seq<char>) -> Seq<char> {
    match c.prefix {
        Some(p) => p@ + "."@ + s,
        None => s,
    }
}

/// A rule line the whole pipeline accepts: the line itself, and for a
/// rule-set reference a known provider, a prefetched payload, and a usable
/// behavior.
pub open spec fn spec_line_ok_full(
    c: Clash,
    line: Seq<char>,
    providers: StrMap<RuleProvider>,
    payloads: StrMap<Vec<String>>,
) -> bool {
    let gs = spec_split(line, ',');
    &&& spec_rule_line_ok(c, line)
    &&& (gs[0] == "RULE-SET"@ ==> {
        &&& providers.spec_get(gs[1]) is Some
        &&& payloads.spec_get(gs[1]) is Some
        &&& spec_ruleset_ok(
            (providers.spec_get(gs[1])->0).behavior@,
            (payloads.spec_get(gs[1])->0)@,
        )
    })
}

/// The complete rule a line translates to under the pipeline: a plain line
/// carries its own rule; a rule-set line carries the rule its provider's
/// behavior makes of the prefetched payload.
pub open spec fn spec_line_item(
    c: Clash,
    line: Seq<char>,
    providers: StrMap<RuleProvider>,
    payloads: StrMap<Vec<String>>,
    item: RuleItem,
) -> bool {
    let gs = spec_split(line, ',');
    &&& crate::rule::matcher_wf(item.matcher)
    &&& if gs[0] == "RULE-SET"@ {
        &&& gs.len() >= 3
        &&& spec_get_target(c, gs[2]) == Some(item.target@)
        &&& {
            let behavior = (providers.spec_get(gs[1])->0).behavior@;
            let payload = (payloads.spec_get(gs[1])->0)@;
            &&& (behavior == "domain"@ ==> (item.matcher matches Matcher::Domain(dm) && dm.method
                == DomainMatcherMethod::Match && dm.domain@.len() == payload.len() && (forall|
                i: int,
            |
                0 <= i < payload.len() ==> (#[trigger] dm.domain@[i])@ == payload[i]@)))
            &&& (behavior == "ipcidr"@ ==> (item.matcher matches Matcher::IpCidr(cm)
                && cm.ipcidr@.len() == payload.len() && (forall|i: int|
                0 <= i < payload.len() ==> spec_parse_cidr((#[trigger] payload[i])@) == Some(
                    cm.ipcidr@[i],
                ))))
        }
    } else {
        spec_plain_item(c, gs, item)
    }
}

impl Clash {
    /// Translates the rule lines in order, resolving rule-set references
    /// through their providers and the prefetched payloads: exactly the lines
    /// `spec_line_ok_full` admits translate, and each line yields its rule.
    pub fn translate_rules(
        &self,
        lines: &Vec<String>,
        providers: &StrMap<RuleProvider>,
        payloads: &StrMap<Vec<String>>,
    ) -> (r: Result<Vec<RuleItem>, Error>)
        ensures
            r is Ok <==> (forall|i: int|
                0 <= i < lines@.len() ==> spec_line_ok_full(
                    *self,
                    (#[trigger] lines@[i])@,
                    *providers,
                    *payloads,
                )),
            r matches Ok(items) ==> items@.len() == lines@.len() && crate::rule::rules_wf(items@)
                && (forall|i: int|
                0 <= i < lines@.len() ==> spec_line_item(
                    *self,
                    (#[trigger] lines@[i])@,
                    *providers,
                    *payloads,
                    items@[i],
                )),
    {
        proof {
            lemma_kind_literals();
        }
        let mut items: Vec<RuleItem> = Vec::new();
        let mut i: usize = 0;
        while i < lines.len()
            invariant
                0 <= i <= lines@.len(),
                items@.len() == i,
                crate::rule::rules_wf(items@),
                "MATCH"@ != "RULE-SET"@ && "DOMAIN-SUFFIX"@ != "RULE-SET"@ && "DOMAIN-KEYWORD"@
                    != "RULE-SET"@ && "DOMAIN"@ != "RULE-SET"@ && "IP-CIDR"@ != "RULE-SET"@
                    && "IP-CIDR6"@ != "RULE-SET"@ && "SRC-IP-CIDR"@ != "RULE-SET"@ && "GEOIP"@
                    != "RULE-SET"@,
                forall|j: int|
                    0 <= j < i ==> spec_line_ok_full(
                        *self,
                        (#[trigger] lines@[j])@,
                        *providers,
                        *payloads,
                    ),
                forall|j: int|
                    0 <= j < i ==> spec_line_item(
                        *self,
                        (#[trigger] lines@[j])@,
                        *providers,
                        *payloads,
                        items@[j],
                    ),
            decreases lines@.len() - i,
        {
            let parsed = match self.parse_rule_line(lines[i].as_str()) {
                Ok(pr) => pr,
                Err(_) => {
                    return Err(Error::BadRequest);
                }
            };
            match parsed {
                ParsedRule::Plain(item) => {
                    items.push(item);
                }
                ParsedRule::NeedsRuleSet { set, target } => {
                    let provider = match providers.get(set.as_str()) {
                        Some(p) => p,
                        None => {
                            return Err(Error::BadRequest);
                        }
                    };
                    let payload = match payloads.get(set.as_str()) {
                        Some(p) => p,
                        None => {
                            return Err(Error::NotFound);
                        }
                    };
                    let item = match ruleset_to_rule(provider.behavior.as_str(), payload, target) {
                        Ok(item) => item,
                        Err(_) => {
                            return Err(Error::BadRequest);
                        }
                    };
                    items.push(item);
                }
            }
            i += 1;
        }
        Ok(items)
    }
}

/// The rendered item list of a translated rule net: some rule list, parsed
/// line by line and then coalesced into a dispatch-equivalent list, rendered
/// losslessly in order.
pub open spec fn spec_rule_net_contents(
    c: Clash,
    lines: Seq<String>,
    providers: StrMap<RuleProvider>,
    payloads: StrMap<Vec<String>>,
    arr: Seq<Value>,
) -> bool {
    exists|parsed: Seq<RuleItem>, folded: Seq<RuleItem>|
        {
            &&& #[trigger] parsed.len() == lines.len()
            &&& (forall|i: int|
                0 <= i < lines.len() ==> spec_line_item(
                    c,
                    (#[trigger] lines[i])@,
                    providers,
                    payloads,
                    parsed[i],
                ))
            &&& crate::rule::rules_wf(folded)
            &&& (forall|ctx: crate::rule::MatchContext|
                crate::rule::spec_first_match(folded, ctx) == crate::rule::spec_first_match(
                    parsed,
                    ctx,
                ))
            &&& #[trigger] folded.len() == arr.len()
            &&& (forall|i: int| 0 <= i < arr.len() ==> spec_rule_value(folded[i], #[trigger] arr[i]))
        }
}

impl Clash {
    /// Runs the whole translation over a document: every proxy becomes a net
    /// under its prefixed name — an untranslatable one becomes the
    /// placeholder net; proxy groups become nets unless disabled; when a rule
    /// net is named, the rule lines are translated in order, coalesced, and
    /// rendered losslessly under that name — and translation succeeds exactly
    /// when every line does; when a collecting selector is named, it lists
    /// every added proxy in order with the first selected. Rule-set payloads
    /// arrive prefetched, keyed by set name.
    pub fn process(
        &mut self,
        config: &mut Config,
        doc: ClashConfig,
        ruleset_payloads: &StrMap<Vec<String>>,
    ) -> (r: Result<(), Error>)
        requires
            old(config).net.wf(),
            old(self).name_map.wf(),
        ensures
            final (config).net.wf(),
            final (config).server == old(config).server,
            final (self).name_map.wf(),
            final (self).prefix == old(self).prefix,
            final (self).rule_name == old(self).rule_name,
            final (self).select == old(self).select,
            r is Ok <==> (old(self).rule_name is None || (forall|i: int|
                0 <= i < doc.rules@.len() ==> spec_line_ok_full(
                    *final (self),
                    (#[trigger] doc.rules@[i])@,
                    doc.rule_providers,
                    *ruleset_payloads,
                ))),
            r is Ok ==> (forall|i: int|
                0 <= i < doc.proxies@.len() ==> (final (self).name_map.spec_get(
                    (#[trigger] doc.proxies@[i]).name@,
                ) matches Some(n) && n@ == spec_prefixed(*old(self), doc.proxies@[i].name@))),
            r is Ok ==> (forall|i: int|
                0 <= i < doc.proxies@.len() ==> final (config).net.spec_contains(
                    spec_prefixed(*old(self), (#[trigger] doc.proxies@[i]).name@),
                )),
            r is Ok ==> match (old(self).rule_name, old(self).select) {
                (Some(rn), sn) => (sn matches Some(snn) && snn@ == rn@)
                    || (final (config).net.spec_get(rn@) matches Some(n) && n.net_type@ == "rule"@
                    && n.opt is Obj && (
                spec_obj_get(n.opt->Obj_0@, "rule"@) matches Some(Value::Arr(arr))
                    && spec_rule_net_contents(
                    *final (self),
                    doc.rules@,
                    doc.rule_providers,
                    *ruleset_payloads,
                    arr@,
                ))),
                _ => true,
            },
            r is Ok ==> match old(self).select {
                Some(sn) => final (config).net.spec_get(sn@) matches Some(n) && n.net_type@
                    == "select"@ && n.opt is Obj && opt_str(n.opt, "selected"@) == Some(
                    if doc.proxies@.len() > 0 {
                        spec_prefixed(*old(self), doc.proxies@[0].name@)
                    } else {
                        "noop"@
                    },
                ) && (spec_obj_get(n.opt->Obj_0@, "list"@) matches Some(Value::Arr(items))
                    && items@.len() == doc.proxies@.len() && (forall|i: int|
                    0 <= i < items@.len() ==> ((#[trigger] items@[i]) matches Value::Str(m) && m@
                        == spec_prefixed(*old(self), doc.proxies@[i].name@)))),
                None => true,
            },
    {
        let ghost c0 = *old(self);
        let ghost gproxies = doc.proxies@;
        let ClashConfig { proxies, proxy_groups, rules, rule_providers } = doc;

        // proxies: register the name, remember the entry, insert the net
        let mut added_proxies: Vec<String> = Vec::new();
        let mut proxy_map: StrMap<Proxy> = StrMap::new();
        let mut rest = proxies;
        let total = rest.len();
        proof {
            assert(gproxies.len() == total);
        }
        let mut pi: usize = 0;
        proof {
            assert(rest@.skip(0) =~= gproxies);
        }
        while rest.len() > 0
            invariant
                config.net.wf(),
                config.server == old(config).server,
                self.name_map.wf(),
                self.prefix == c0.prefix,
                self.rule_name == c0.rule_name,
                self.select == c0.select,
                self.direct == c0.direct,
                self.reject == c0.reject,
                self.disable_proxy_group == c0.disable_proxy_group,
                c0 == *old(self),
                proxy_map.wf(),
                pi + rest@.len() == gproxies.len(),
                gproxies.len() == total,
                rest@ =~= gproxies.skip(pi as int),
                added_proxies@.len() == pi,
                forall|j: int|
                    0 <= j < pi ==> (#[trigger] added_proxies@[j])@ == spec_prefixed(
                        c0,
                        gproxies[j].name@,
                    ),
                forall|j: int|
                    0 <= j < pi ==> (self.name_map.spec_get((#[trigger] gproxies[j]).name@)
                        matches Some(n) && n@ == spec_prefixed(c0, gproxies[j].name@)),
                forall|j: int|
                    0 <= j < pi ==> config.net.spec_contains(
                        spec_prefixed(c0, (#[trigger] gproxies[j]).name@),
                    ),
            decreases rest@.len(),
        {
            let ghost rest0 = rest@;
            let p = rest.remove(0);
            proof {
                assert(rest0[0] == gproxies[pi as int]);
                assert(rest@ =~= rest0.skip(1));
            }
            let old_name = p.name.clone();
            let name = self.prefix(old_name.as_str());
            let ghost namev = name@;
            added_proxies.push(name.clone());
            self.name_map.insert(old_name.clone(), name.clone());
            proxy_map.insert(old_name.clone(), p.clone());
            let ghost net_before = config.net;
            match self.proxy_to_net(&p, None) {
                Ok(net) => {
                    config.net.insert(name, net);
                }
                Err(_) => {
                    config.net.insert(name, ghost_net());
                }
            }
            proof {
                assert(namev == spec_prefixed(c0, gproxies[pi as int].name@));
                assert forall|j: int|
                    0 <= j < pi + 1 implies (self.name_map.spec_get(
                    (#[trigger] gproxies[j]).name@,
                ) matches Some(n) && n@ == spec_prefixed(c0, gproxies[j].name@)) by {
                    if gproxies[j].name@ != gproxies[pi as int].name@ {
                    }
                }
                assert forall|j: int| 0 <= j < pi + 1 implies config.net.spec_contains(
                    spec_prefixed(c0, (#[trigger] gproxies[j]).name@),
                ) by {
                    if spec_prefixed(c0, gproxies[j].name@) != namev {
                        assert(config.net.spec_get(spec_prefixed(c0, gproxies[j].name@))
                            == net_before.spec_get(spec_prefixed(c0, gproxies[j].name@)));
                    }
                }
            }
            pi += 1;
        }
        proof {
            assert(gproxies.skip(gproxies.len() as int) =~= Seq::<Proxy>::empty());
        }

        // proxy groups: register their names, then translate each
        if !self.disable_proxy_group {
            let mut i: usize = 0;
            while i < proxy_groups.len()
                invariant
                    self.name_map.wf(),
                    self.prefix == c0.prefix,
                    self.rule_name == c0.rule_name,
                    self.select == c0.select,
                    self.direct == c0.direct,
                    self.reject == c0.reject,
                    c0 == *old(self),
                    forall|j: int|
                        0 <= j < gproxies.len() ==> (self.name_map.spec_get(
                            (#[trigger] gproxies[j]).name@,
                        ) matches Some(n) && n@ == spec_prefixed(c0, gproxies[j].name@)),
                decreases proxy_groups@.len() - i,
            {
                let old_name = proxy_groups[i].name.clone();
                let name = self.proxy_group_name(old_name.as_str());
                let ghost gname = old_name@;
                self.name_map.insert(old_name, name);
                proof {
                    assert forall|j: int|
                        0 <= j < gproxies.len() implies (self.name_map.spec_get(
                        (#[trigger] gproxies[j]).name@,
                    ) matches Some(n) && n@ == spec_prefixed(c0, gproxies[j].name@)) by {
                        if gproxies[j].name@ != gname {
                        }
                    }
                }
                i += 1;
            }
            let mut groups = proxy_groups;
            while groups.len() > 0
                invariant
                    config.net.wf(),
                    config.server == old(config).server,
                    self.name_map.wf(),
                    self.prefix == c0.prefix,
                    self.rule_name == c0.rule_name,
                    self.select == c0.select,
                    self.direct == c0.direct,
                    self.reject == c0.reject,
                    c0 == *old(self),
                    proxy_map.wf(),
                    forall|j: int|
                        0 <= j < gproxies.len() ==> (self.name_map.spec_get(
                            (#[trigger] gproxies[j]).name@,
                        ) matches Some(n) && n@ == spec_prefixed(c0, gproxies[j].name@)),
                    forall|j: int|
                        0 <= j < gproxies.len() ==> config.net.spec_contains(
                            spec_prefixed(c0, (#[trigger] gproxies[j]).name@),
                        ),
                decreases groups@.len(),
            {
                let pg = groups.remove(0);
                let name = self.proxy_group_name(pg.name.as_str());
                let ghost namev = name@;
                let ghost net_before = config.net;
                match self.proxy_group_to_net(pg, &proxy_map) {
                    Ok(net) => {
                        config.net.insert(name, net);
                    }
                    Err(_) => {
                        // an untranslatable group is skipped
                    }
                }
                proof {
                    assert forall|j: int| 0 <= j < gproxies.len() implies config.net.spec_contains(
                        spec_prefixed(c0, (#[trigger] gproxies[j]).name@),
                    ) by {
                        if spec_prefixed(c0, gproxies[j].name@) != namev {
                            assert(config.net.spec_get(spec_prefixed(c0, gproxies[j].name@))
                                == net_before.spec_get(spec_prefixed(c0, gproxies[j].name@)));
                        }
                    }
                }
            }
        }

        // the rule net
        let rule_name: Option<String> = match &self.rule_name {
            Some(rn) => Some(rn.clone()),
            None => None,
        };
        if let Some(rn) = rule_name {
            let items = match self.translate_rules(&rules, &rule_providers, ruleset_payloads) {
                Ok(items) => items,
                Err(e) => {
                    return Err(e);
                }
            };
            let ghost parsed = items@;
            let coalesced = coalesce_rules(items);
            let ghost folded = coalesced@;
            let mut rule_items: Vec<Value> = Vec::new();
            let mut k: usize = 0;
            while k < coalesced.len()
                invariant
                    0 <= k <= coalesced@.len(),
                    coalesced@ == folded,
                    rule_items@.len() == k,
                    forall|j: int|
                        0 <= j < k ==> spec_rule_value(folded[j], #[trigger] rule_items@[j]),
                decreases coalesced@.len() - k,
            {
                rule_items.push(rule_item_to_value(&coalesced[k]));
                k += 1;
            }
            let ghost arr = rule_items@;
            proof {
                assert(spec_rule_net_contents(
                    *self,
                    rules@,
                    rule_providers,
                    *ruleset_payloads,
                    arr,
                )) by {
                    assert(parsed.len() == rules@.len());
                    assert(folded.len() == arr.len());
                    assert(crate::rule::rules_wf(folded));
                    assert(forall|i: int|
                        0 <= i < rules@.len() ==> spec_line_item(
                            *self,
                            (#[trigger] rules@[i])@,
                            rule_providers,
                            *ruleset_payloads,
                            parsed[i],
                        ));
                    assert(forall|ctx: crate::rule::MatchContext|
                        crate::rule::spec_first_match(folded, ctx)
                            == crate::rule::spec_first_match(parsed, ctx));
                    assert(forall|i: int|
                        0 <= i < arr.len() ==> spec_rule_value(folded[i], #[trigger] arr[i]));
                }
            }
            let mut fields: Vec<(String, Value)> = Vec::new();
            fields.push(("rule".to_owned(), Value::Arr(rule_items)));
            proof {
                crate::json::lemma_obj_get_present(fields@, 0, "rule"@);
            }
            config.net.insert(rn, Net::new("rule", Value::Obj(fields)));
        }

        // the collecting selector
        let select_name: Option<String> = match &self.select {
            Some(sn) => Some(sn.clone()),
            None => None,
        };
        if let Some(sn) = select_name {
            let selected: String = if added_proxies.len() > 0 {
                added_proxies[0].clone()
            } else {
                "noop".to_owned()
            };
            let mut list: Vec<Value> = Vec::new();
            let mut k: usize = 0;
            while k < added_proxies.len()
                invariant
                    0 <= k <= added_proxies@.len(),
                    added_proxies@.len() == gproxies.len(),
                    list@.len() == k,
                    forall|j: int|
                        0 <= j < gproxies.len() ==> (#[trigger] added_proxies@[j])@
                            == spec_prefixed(c0, gproxies[j].name@),
                    forall|j: int|
                        0 <= j < k ==> ((#[trigger] list@[j]) matches Value::Str(m) && m@
                            == spec_prefixed(c0, gproxies[j].name@)),
                decreases added_proxies@.len() - k,
            {
                list.push(Value::Str(added_proxies[k].clone()));
                k += 1;
            }
            let mut fields: Vec<(String, Value)> = Vec::new();
            fields.push(("selected".to_owned(), Value::Str(selected)));
            fields.push(("list".to_owned(), Value::Arr(list)));
            proof {
                lemma_kind_literals();
                crate::json::lemma_obj_get_present(fields@, 0, "selected"@);
                crate::json::lemma_obj_get_present(fields@, 1, "list"@);
            }
            config.net.insert(sn, Net::new("select", Value::Obj(fields)));
        }
        Ok(())
    }
}

/// The integer value of a field of an options object/// The integer value of a field of an options object, if it is one.
pub open spec fn opt_int(opt: Value, k: Seq<char>) -> Option<i64> {
    if opt is Obj {
        match spec_obj_get(opt->Obj_0@, k) {
            Some(Value::Int(v)) => Some(v),
            _ => None,
        }
    } else {
        None
    }
}

/// `v` renders the prefix losslessly: the prefix length, and the address as
/// an integer (IPv4) or as its eight 16-bit groups (IPv6).
pub open spec fn spec_cidr_value(c: IpCidr, v: Value) -> bool {
    &&& v is Obj
    &&& opt_int(v, "prefix"@) == Some(c.prefix as i64)
    &&& match c.addr {
        crate::address::IpAddress::V4(a) => opt_int(v, "v4"@) == Some(a as i64),
        crate::address::IpAddress::V6(a) => (spec_obj_get(v->Obj_0@, "v6"@) matches Some(
            Value::Arr(gs),
        ) && gs@.len() == 8 && gs@[0] == Value::Int(((a >> 112) & 0xFFFF) as i64) && gs@[1]
            == Value::Int(((a >> 96) & 0xFFFF) as i64) && gs@[2] == Value::Int(
            ((a >> 80) & 0xFFFF) as i64,
        ) && gs@[3] == Value::Int(((a >> 64) & 0xFFFF) as i64) && gs@[4] == Value::Int(
            ((a >> 48) & 0xFFFF) as i64,
        ) && gs@[5] == Value::Int(((a >> 32) & 0xFFFF) as i64) && gs@[6] == Value::Int(
            ((a >> 16) & 0xFFFF) as i64,
        ) && gs@[7] == Value::Int((a & 0xFFFF) as i64)),
    }
}

/// The textual name of a domain matching method.
pub open spec fn spec_method_name(m: DomainMatcherMethod) -> Seq<char> {
    match m {
        DomainMatcherMethod::Suffix => "suffix"@,
        DomainMatcherMethod::Keyword => "keyword"@,
        DomainMatcherMethod::Match => "match"@,
    }
}

/// `v` renders the rule losslessly: its target, and its matcher with every
/// pattern, prefix and country it carries.
pub open spec fn spec_rule_value(item: RuleItem, v: Value) -> bool {
    &&& v is Obj
    &&& opt_str(v, "target"@) == Some(item.target@)
    &&& match item.matcher {
        Matcher::Domain(dm) => {
            &&& opt_str(v, "method"@) == Some(spec_method_name(dm.method))
            &&& (spec_obj_get(v->Obj_0@, "domain"@) matches Some(Value::Arr(ds)) && ds@.len()
                == dm.domain@.len() && (forall|i: int|
                0 <= i < ds@.len() ==> ((#[trigger] ds@[i]) matches Value::Str(d) && d@
                    == dm.domain@[i]@)))
        },
        Matcher::IpCidr(cm) => (spec_obj_get(v->Obj_0@, "ipcidr"@) matches Some(Value::Arr(cs))
            && cs@.len() == cm.ipcidr@.len() && (forall|i: int|
            0 <= i < cs@.len() ==> spec_cidr_value(cm.ipcidr@[i], #[trigger] cs@[i]))),
        Matcher::SrcIpCidr(cm) => (spec_obj_get(v->Obj_0@, "src_ipcidr"@) matches Some(
            Value::Arr(cs),
        ) && cs@.len() == cm.ipcidr@.len() && (forall|i: int|
            0 <= i < cs@.len() ==> spec_cidr_value(cm.ipcidr@[i], #[trigger] cs@[i]))),
        Matcher::GeoIp(gm) => opt_str(v, "country"@) == Some(gm.country@),
        Matcher::Any(_) => true,
    }
}

/// Renders one prefix as a document value.
fn cidr_to_value(c: &IpCidr) -> (v: Value)
    ensures
        spec_cidr_value(*c, v),
{
    proof {
        lemma_kind_literals();
    }
    let mut fields: Vec<(String, Value)> = Vec::new();
    fields.push(("prefix".to_owned(), Value::Int(c.prefix as i64)));
    match &c.addr {
        crate::address::IpAddress::V4(a) => {
            fields.push(("v4".to_owned(), Value::Int(*a as i64)));
            proof {
                crate::json::lemma_obj_get_present(fields@, 0, "prefix"@);
                crate::json::lemma_obj_get_present(fields@, 1, "v4"@);
            }
            Value::Obj(fields)
        }
        crate::address::IpAddress::V6(a) => {
            let mut gs: Vec<Value> = Vec::new();
            gs.push(Value::Int(((*a >> 112) & 0xFFFF) as i64));
            gs.push(Value::Int(((*a >> 96) & 0xFFFF) as i64));
            gs.push(Value::Int(((*a >> 80) & 0xFFFF) as i64));
            gs.push(Value::Int(((*a >> 64) & 0xFFFF) as i64));
            gs.push(Value::Int(((*a >> 48) & 0xFFFF) as i64));
            gs.push(Value::Int(((*a >> 32) & 0xFFFF) as i64));
            gs.push(Value::Int(((*a >> 16) & 0xFFFF) as i64));
            gs.push(Value::Int((*a & 0xFFFF) as i64));
            fields.push(("v6".to_owned(), Value::Arr(gs)));
            proof {
                crate::json::lemma_obj_get_present(fields@, 0, "prefix"@);
                crate::json::lemma_obj_get_present(fields@, 1, "v6"@);
            }
            Value::Obj(fields)
        }
    }
}

/// Renders one rule as a document value for the rule net's options, keeping
/// every pattern and prefix.
fn rule_item_to_value(item: &RuleItem) -> (v: Value)
    ensures
        spec_rule_value(*item, v),
{
    proof {
        lemma_kind_literals();
    }
    let mut fields: Vec<(String, Value)> = Vec::new();
    fields.push(("target".to_owned(), Value::Str(item.target.clone())));
    proof {
        crate::json::lemma_obj_get_present(fields@, 0, "target"@);
    }
    match &item.matcher {
        Matcher::Domain(dm) => {
            fields.push((
                "method".to_owned(),
                Value::Str(
                    match dm.method {
                        DomainMatcherMethod::Suffix => "suffix".to_owned(),
                        DomainMatcherMethod::Keyword => "keyword".to_owned(),
                        DomainMatcherMethod::Match => "match".to_owned(),
                    },
                ),
            ));
            let mut items: Vec<Value> = Vec::new();
            let mut i: usize = 0;
            while i < dm.domain.len()
                invariant
                    0 <= i <= dm.domain@.len(),
                    items@.len() == i,
                    forall|j: int|
                        0 <= j < i ==> ((#[trigger] items@[j]) matches Value::Str(d) && d@
                            == dm.domain@[j]@),
                decreases dm.domain@.len() - i,
            {
                items.push(Value::Str(dm.domain[i].clone()));
                i += 1;
            }
            fields.push(("domain".to_owned(), Value::Arr(items)));
            proof {
                crate::json::lemma_obj_get_present(fields@, 0, "target"@);
                crate::json::lemma_obj_get_present(fields@, 1, "method"@);
                crate::json::lemma_obj_get_present(fields@, 2, "domain"@);
            }
        }
        Matcher::IpCidr(cm) => {
            let mut items: Vec<Value> = Vec::new();
            let mut i: usize = 0;
            while i < cm.ipcidr.len()
                invariant
                    0 <= i <= cm.ipcidr@.len(),
                    items@.len() == i,
                    forall|j: int| 0 <= j < i ==> spec_cidr_value(cm.ipcidr@[j], #[trigger] items@[j]),
                decreases cm.ipcidr@.len() - i,
            {
                items.push(cidr_to_value(&cm.ipcidr[i]));
                i += 1;
            }
            fields.push(("ipcidr".to_owned(), Value::Arr(items)));
            proof {
                crate::json::lemma_obj_get_present(fields@, 0, "target"@);
                crate::json::lemma_obj_get_present(fields@, 1, "ipcidr"@);
            }
        }
        Matcher::SrcIpCidr(cm) => {
            let mut items: Vec<Value> = Vec::new();
            let mut i: usize = 0;
            while i < cm.ipcidr.len()
                invariant
                    0 <= i <= cm.ipcidr@.len(),
                    items@.len() == i,
                    forall|j: int| 0 <= j < i ==> spec_cidr_value(cm.ipcidr@[j], #[trigger] items@[j]),
                decreases cm.ipcidr@.len() - i,
            {
                items.push(cidr_to_value(&cm.ipcidr[i]));
                i += 1;
            }
            fields.push(("src_ipcidr".to_owned(), Value::Arr(items)));
            proof {
                crate::json::lemma_obj_get_present(fields@, 0, "target"@);
                crate::json::lemma_obj_get_present(fields@, 1, "src_ipcidr"@);
            }
        }
        Matcher::GeoIp(gm) => {
            fields.push(("country".to_owned(), Value::Str(gm.country.clone())));
            proof {
                crate::json::lemma_obj_get_present(fields@, 0, "target"@);
                crate::json::lemma_obj_get_present(fields@, 1, "country"@);
            }
        }
        Matcher::Any(_) => {}
    }
    Value::Obj(fields)
}

} // verus!
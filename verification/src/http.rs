//! The HTTP CONNECT proxy server's decision core: Basic authentication,
//! target resolution, absolute-form rewriting and hop-by-hop scrubbing.
//!
//! The socket work around these decisions is ordinary I/O and lives outside
//! the library.

use vstd::prelude::*;

use crate::address::{spec_parse_ipv4, spec_parse_ipv6, dec_val, is_canon_dec, parse_dec, Address, IpAddress};
use crate::strutil::{concat3, spec_split, split_char, str_eq};
use vstd::string::{StrSliceExecFns, StringSliceAdditionalSpecFns};

verus! {

/// What the standard base64 alphabet decodes the input to, if anything.
pub uninterp spec fn base64_decode_of(s: Seq<char>) -> Option<Seq<u8>>;

/// Relies on the `base64` crate's standard-alphabet engine: the decoding is a
/// function of the input characters alone.
#[verifier::external_body]
fn base64_decode(s: &str) -> (r: Option<Vec<u8>>)
    ensures
        match r {
            Some(v) => base64_decode_of(s@) == Some(v@),
            None => base64_decode_of(s@) is None,
        },
{
    base64::Engine::decode(&base64::engine::general_purpose::STANDARD, s).ok()
}

/// The decoded credential bytes carry exactly the expected user and password:
/// the user's bytes, one colon, the password's bytes, with no colon inside
/// the user part.
pub open spec fn spec_credentials_match(decoded: Seq<u8>, u: Seq<u8>, p: Seq<u8>) -> bool {
    decoded == u + seq![58u8] + p && (forall|i: int| 0 <= i < u.len() ==> u[i] != 58u8)
}

/// Whether the decoded credential bytes match the user and password.
fn credentials_match(decoded: &Vec<u8>, u: &[u8], p: &[u8]) -> (r: bool)
    ensures
        r == spec_credentials_match(decoded@, u@, p@),
{
    if decoded.len() < 1 || u.len() > decoded.len() - 1 || decoded.len() - 1 - u.len()
        != p.len() {
        proof {
            assert(decoded@.len() != u@.len() + 1 + p@.len() ==> decoded@ != (u@ + seq![58u8]
                + p@));
        }
        return false;
    }
    let mut i: usize = 0;
    while i < u.len()
        invariant
            0 <= i <= u@.len(),
            decoded@.len() == u@.len() + 1 + p@.len(),
            forall|j: int| 0 <= j < i ==> decoded@[j] == u@[j] && u@[j] != 58u8,
        decreases u@.len() - i,
    {
        if u[i] == 58 {
            proof {
                assert(u@[i as int] == 58u8);
            }
            return false;
        }
        if decoded[i] != u[i] {
            proof {
                let whole = u@ + seq![58u8] + p@;
                assert(whole[i as int] == u@[i as int]);
            }
            return false;
        }
        i += 1;
    }
    if decoded[u.len()] != 58 {
        proof {
            let whole = u@ + seq![58u8] + p@;
            assert(whole[u@.len() as int] == 58u8);
        }
        return false;
    }
    let dl = decoded.len();
    let mut j: usize = 0;
    while j < p.len()
        invariant
            0 <= j <= p@.len(),
            dl == decoded@.len(),
            decoded@.len() == u@.len() + 1 + p@.len(),
            forall|m: int| 0 <= m < u@.len() ==> decoded@[m] == u@[m] && u@[m] != 58u8,
            decoded@[u@.len() as int] == 58u8,
            forall|m: int| 0 <= m < j ==> decoded@[u@.len() + 1 + m] == p@[m],
        decreases p@.len() - j,
    {
        if decoded[u.len() + 1 + j] != p[j] {
            proof {
                let whole = u@ + seq![58u8] + p@;
                assert(whole[u@.len() + 1 + j] == p@[j as int]);
            }
            return false;
        }
        j += 1;
    }
    proof {
        assert(decoded@ =~= u@ + seq![58u8] + p@);
    }
    true
}

/// Whether the proxy accepts the request's credentials: with no configured
/// credentials everything is accepted; with credentials, only a
/// `Basic`-scheme header whose base64 payload decodes to exactly
/// `user:password`.
pub open spec fn spec_verify_auth(
    auth_header: Option<Seq<char>>,
    username: Option<Seq<u8>>,
    password: Option<Seq<u8>>,
) -> bool {
    match (username, password) {
        (Some(u), Some(p)) => match auth_header {
            Some(h) => {
                &&& h.len() >= 6
                &&& h.take(6) == "Basic "@
                &&& match base64_decode_of(h.skip(6)) {
                    Some(decoded) => spec_credentials_match(decoded, u, p),
                    None => false,
                }
            },
            None => false,
        },
        _ => true,
    }
}

/// Decides `spec_verify_auth` for one request.
pub fn verify_auth(
    auth_header: Option<&str>,
    username: &Option<String>,
    password: &Option<String>,
) -> (r: bool)
    ensures
        r == spec_verify_auth(
            match auth_header {
                Some(h) => Some(h@),
                None => None,
            },
            match username {
                Some(u) => Some(vstd::utf8::encode_utf8(u@)),
                None => None,
            },
            match password {
                Some(p) => Some(vstd::utf8::encode_utf8(p@)),
                None => None,
            },
        ),
{
    let (u, p) = match (username, password) {
        (Some(u), Some(p)) => (u, p),
        _ => {
            return true;
        }
    };
    let h = match auth_header {
        Some(h) => h,
        None => {
            return false;
        }
    };
    let n = h.unicode_len();
    if n < 6 {
        return false;
    }
    let prefix = h.substring_char(0, 6);
    if !str_eq(prefix, "Basic ") {
        return false;
    }
    let payload = h.substring_char(6, n);
    proof {
        assert(payload@ =~= h@.skip(6));
        assert(prefix@ =~= h@.take(6));
    }
    let decoded = match base64_decode(payload) {
        Some(d) => d,
        None => {
            return false;
        }
    };
    credentials_match(&decoded, u.as_str().as_bytes(), p.as_str().as_bytes())
}

// ---------------------------------------------------------------------------
// Authority parsing
// ---------------------------------------------------------------------------
/// An address at the specification level: domain names are character
/// sequences.
pub enum AddrSpec {
    Sock(IpAddress, u16),
    Dom(Seq<char>, u16),
}

/// The address carries what the specification-level form says.
pub open spec fn addr_is(a: Address, b: AddrSpec) -> bool {
    match (a, b) {
        (Address::Socket(x, px), AddrSpec::Sock(y, py)) => x == y && px == py,
        (Address::Domain(x, px), AddrSpec::Dom(y, py)) => x@ == y && px == py,
        _ => false,
    }
}

/// The grammar of a request target: `host:port`, bare `host` taking the
/// default port, or a bracketed IPv6 `[addr]` with an optional `:port`. A
/// bare host that reads as a dotted quad is a socket address; anything else
/// is a domain.
pub open spec fn spec_parse_authority(s: Seq<char>, default_port: u16) -> Option<AddrSpec> {
    if s.len() > 0 && s[0] == '[' {
        let bs = spec_split(s, ']');
        if bs.len() == 2 {
            match spec_parse_ipv6(bs[0].skip(1)) {
                Some(ip) => if bs[1].len() == 0 {
                    Some(AddrSpec::Sock(IpAddress::V6(ip), default_port))
                } else if bs[1][0] == ':' && is_canon_dec(bs[1].skip(1)) && dec_val(bs[1].skip(1))
                    <= 0xFFFF {
                    Some(AddrSpec::Sock(IpAddress::V6(ip), dec_val(bs[1].skip(1)) as u16))
                } else {
                    None
                },
                None => None,
            }
        } else {
            None
        }
    } else {
        let gs = spec_split(s, ':');
        if gs.len() == 1 {
            if s.len() == 0 {
                None
            } else {
                match spec_parse_ipv4(s) {
                    Some(ip) => Some(AddrSpec::Sock(IpAddress::V4(ip), default_port)),
                    None => Some(AddrSpec::Dom(s, default_port)),
                }
            }
        } else if gs.len() == 2 {
            if gs[0].len() == 0 || !is_canon_dec(gs[1]) || dec_val(gs[1]) > 0xFFFF {
                None
            } else {
                let port = dec_val(gs[1]) as u16;
                match spec_parse_ipv4(gs[0]) {
                    Some(ip) => Some(AddrSpec::Sock(IpAddress::V4(ip), port)),
                    None => Some(AddrSpec::Dom(gs[0], port)),
                }
            }
        } else {
            None
        }
    }
}

/// Parses a request target. On a domain result the returned name carries
/// exactly the host characters.
pub fn parse_authority(s: &str, default_port: u16) -> (r: Option<Address>)
    ensures
        match (r, spec_parse_authority(s@, default_port)) {
            (Some(a), Some(b)) => addr_is(a, b),
            (None, None) => true,
            _ => false,
        },
{
    let n = s.unicode_len();
    if n > 0 && s.get_char(0) == '[' {
        let bs = split_char(s, ']');
        if bs.len() != 2 {
            return None;
        }
        proof {
            crate::strutil::lemma_split_first_char(s@, ']');
        }
        let inner = bs[0].as_str();
        let il = inner.unicode_len();
        let addr_part = inner.substring_char(1, il);
        proof {
            assert(addr_part@ =~= bs@[0]@.skip(1));
        }
        let ip = match crate::address::parse_ipv6(addr_part) {
            Some(ip) => ip,
            None => {
                return None;
            }
        };
        let rest = bs[1].as_str();
        let rl = rest.unicode_len();
        if rl == 0 {
            return Some(Address::Socket(IpAddress::V6(ip), default_port));
        }
        if rest.get_char(0) != ':' {
            return None;
        }
        let port_part = rest.substring_char(1, rl);
        proof {
            assert(port_part@ =~= bs@[1]@.skip(1));
        }
        match parse_dec(port_part, 0xFFFF) {
            Some(p) => Some(Address::Socket(IpAddress::V6(ip), p as u16)),
            None => None,
        }
    } else {
        let gs = split_char(s, ':');
        if gs.len() == 1 {
            if n == 0 {
                return None;
            }
            proof {
                crate::strutil::lemma_split_single(s@, ':');
            }
            match parse_ipv4(s) {
                Some(ip) => Some(Address::Socket(IpAddress::V4(ip), default_port)),
                None => Some(Address::Domain(s.to_owned(), default_port)),
            }
        } else if gs.len() == 2 {
            let host = gs[0].as_str();
            if host.unicode_len() == 0 {
                return None;
            }
            let port = match parse_dec(gs[1].as_str(), 0xFFFF) {
                Some(p) => p as u16,
                None => {
                    return None;
                }
            };
            match parse_ipv4(host) {
                Some(ip) => Some(Address::Socket(IpAddress::V4(ip), port)),
                None => Some(Address::Domain(host.to_owned(), port)),
            }
        } else {
            None
        }
    }
}

/// Parses a dotted quad; a thin rename so the authority parser reads well.
fn parse_ipv4(s: &str) -> (r: Option<u32>)
    ensures
        r == spec_parse_ipv4(s@),
{
    crate::address::parse_ipv4(s)
}

// ---------------------------------------------------------------------------
// Hop-by-hop scrubbing
// ---------------------------------------------------------------------------
/// The character's code with an ASCII capital folded to its small form.
pub open spec fn lower_code(c: char) -> int {
    if 'A' <= c && c <= 'Z' {
        c as u32 + 32
    } else {
        c as u32 as int
    }
}

/// Case-insensitive equality of header names, folding ASCII capitals.
pub open spec fn name_matches_ci(a: Seq<char>, b: Seq<char>) -> bool {
    a.len() == b.len() && (forall|i: int| 0 <= i < a.len() ==> lower_code(a[i]) == lower_code(b[i]))
}

/// Decides `name_matches_ci`.
pub fn name_eq_ci(a: &str, b: &str) -> (r: bool)
    ensures
        r == name_matches_ci(a@, b@),
{
    let an = a.unicode_len();
    let bn = b.unicode_len();
    if an != bn {
        return false;
    }
    let mut i: usize = 0;
    while i < an
        invariant
            0 <= i <= an,
            an == a@.len(),
            an == b@.len(),
            forall|j: int| 0 <= j < i ==> lower_code(a@[j]) == lower_code(b@[j]),
        decreases an - i,
    {
        let ca = a.get_char(i);
        let cb = b.get_char(i);
        let la: u32 = if 'A' <= ca && ca <= 'Z' {
            ca as u32 + 32
        } else {
            ca as u32
        };
        let lb: u32 = if 'A' <= cb && cb <= 'Z' {
            cb as u32 + 32
        } else {
            cb as u32
        };
        if la != lb {
            return false;
        }
        i += 1;
    }
    true
}

/// The nine canonical hop-by-hop header names.
pub open spec fn is_hop_name(n: Seq<char>) -> bool {
    ||| name_matches_ci(n, "connection"@)
    ||| name_matches_ci(n, "keep-alive"@)
    ||| name_matches_ci(n, "proxy-authenticate"@)
    ||| name_matches_ci(n, "proxy-authorization"@)
    ||| name_matches_ci(n, "proxy-connection"@)
    ||| name_matches_ci(n, "te"@)
    ||| name_matches_ci(n, "trailers"@)
    ||| name_matches_ci(n, "transfer-encoding"@)
    ||| name_matches_ci(n, "upgrade"@)
}

/// Decides `is_hop_name`.
pub fn is_hop_header(n: &str) -> (r: bool)
    ensures
        r == is_hop_name(n@),
{
    name_eq_ci(n, "connection") || name_eq_ci(n, "keep-alive") || name_eq_ci(
        n,
        "proxy-authenticate",
    ) || name_eq_ci(n, "proxy-authorization") || name_eq_ci(n, "proxy-connection") || name_eq_ci(
        n,
        "te",
    ) || name_eq_ci(n, "trailers") || name_eq_ci(n, "transfer-encoding") || name_eq_ci(
        n,
        "upgrade",
    )
}

/// An ASCII space or tab.
pub open spec fn is_space(c: char) -> bool {
    c == ' ' || c == '\t'
}

/// The text with leading spaces removed.
pub open spec fn spec_ltrim(s: Seq<char>) -> Seq<char>
    decreases s.len(),
{
    if s.len() > 0 && is_space(s[0]) {
        spec_ltrim(s.skip(1))
    } else {
        s
    }
}

/// The text with trailing spaces removed.
pub open spec fn spec_rtrim(s: Seq<char>) -> Seq<char>
    decreases s.len(),
{
    if s.len() > 0 && is_space(s.last()) {
        spec_rtrim(s.drop_last())
    } else {
        s
    }
}

/// The text with leading and trailing spaces removed.
pub open spec fn spec_trim(s: Seq<char>) -> Seq<char> {
    spec_rtrim(spec_ltrim(s))
}

/// Whether the character at `i` is an ASCII space or tab.
fn space_at(s: &str, i: usize) -> (r: bool)
    requires
        i < s@.len(),
    ensures
        r == is_space(s@[i as int]),
{
    let c = s.get_char(i);
    c == ' ' || c == '\t'
}

/// Removes leading and trailing ASCII spaces and tabs.
pub fn trim_spaces(s: &str) -> (r: String)
    ensures
        r@ == spec_trim(s@),
{
    let n = s.unicode_len();
    proof {
        assert(s@.skip(0) =~= s@);
    }
    let mut from: usize = 0;
    while from < n && space_at(s, from)
        invariant
            0 <= from <= n,
            n == s@.len(),
            spec_ltrim(s@) == spec_ltrim(s@.skip(from as int)),
            forall|j: int| 0 <= j < from ==> is_space(s@[j]),
        decreases n - from,
    {
        proof {
            assert(s@.skip(from as int)[0] == s@[from as int]);
            assert(s@.skip(from as int).skip(1) =~= s@.skip(from as int + 1));
        }
        from += 1;
    }
    proof {
        if from < n {
            assert(s@.skip(from as int)[0] == s@[from as int]);
        }
        assert(spec_ltrim(s@) =~= s@.skip(from as int));
    }
    proof {
        assert(s@.skip(from as int).take(n - from) =~= s@.skip(from as int));
    }
    let mut to: usize = n;
    while to > from && space_at(s, to - 1)
        invariant
            from <= to <= n,
            n == s@.len(),
            spec_ltrim(s@) =~= s@.skip(from as int),
            spec_rtrim(s@.skip(from as int)) == spec_rtrim(
                s@.skip(from as int).take(to - from),
            ),
        decreases to,
    {
        proof {
            let cur = s@.skip(from as int).take(to - from);
            assert(cur.last() == s@[to as int - 1]);
            assert(cur.drop_last() =~= s@.skip(from as int).take(to - 1 - from));
        }
        to -= 1;
    }
    proof {
        let cur = s@.skip(from as int).take(to - from);
        if to > from {
            assert(cur.last() == s@[to as int - 1]);
        }
        assert(spec_rtrim(s@.skip(from as int)) =~= cur);
        assert(cur =~= s@.subrange(from as int, to as int));
    }
    let r = s.substring_char(from, to);
    r.to_owned()
}

/// The trimmed comma-separated tokens of a `Connection` header value.
pub open spec fn spec_conn_value_tokens(v: Seq<char>) -> Seq<Seq<char>> {
    spec_split(v, ',').map_values(|t: Seq<char>| spec_trim(t))
}

/// The tokens named by the first `Connection` header, if any.
pub open spec fn spec_conn_tokens(headers: Seq<(String, String)>) -> Seq<Seq<char>>
    decreases headers.len(),
{
    if headers.len() == 0 {
        Seq::empty()
    } else if name_matches_ci(headers[0].0@, "connection"@) {
        spec_conn_value_tokens(headers[0].1@)
    } else {
        spec_conn_tokens(headers.skip(1))
    }
}

/// Whether a header survives scrubbing: neither one of the nine canonical
/// hop-by-hop names nor named in the `Connection` header.
pub open spec fn keep_header(name: Seq<char>, tokens: Seq<Seq<char>>) -> bool {
    !is_hop_name(name) && !(exists|i: int|
        0 <= i < tokens.len() && name_matches_ci(name, #[trigger] tokens[i]))
}

/// The headers that survive scrubbing, in order.
pub open spec fn spec_scrub(headers: Seq<(String, String)>, tokens: Seq<Seq<char>>) -> Seq<
    (String, String),
>
    decreases headers.len(),
{
    if headers.len() == 0 {
        headers
    } else if keep_header(headers[0].0@, tokens) {
        seq![headers[0]] + spec_scrub(headers.skip(1), tokens)
    } else {
        spec_scrub(headers.skip(1), tokens)
    }
}

/// Every header the scrub leaves behind is neither hop-by-hop nor named in
/// the `Connection` header.
pub proof fn lemma_scrub_removes_hop_headers(
    headers: Seq<(String, String)>,
    tokens: Seq<Seq<char>>,
    i: int,
)
    requires
        0 <= i < spec_scrub(headers, tokens).len(),
    ensures
        keep_header(spec_scrub(headers, tokens)[i].0@, tokens),
    decreases headers.len(),
{
    if headers.len() > 0 {
        if keep_header(headers[0].0@, tokens) {
            if i > 0 {
                lemma_scrub_removes_hop_headers(headers.skip(1), tokens, i - 1);
            }
        } else {
            lemma_scrub_removes_hop_headers(headers.skip(1), tokens, i);
        }
    }
}

/// Reads the first `Connection` header's tokens.
fn conn_tokens(headers: &Vec<(String, String)>) -> (r: Vec<String>)
    ensures
        r@.map_values(|t: String| t@) =~= spec_conn_tokens(headers@),
{
    proof {
        assert(headers@.skip(0) =~= headers@);
    }
    let mut i: usize = 0;
    while i < headers.len()
        invariant
            0 <= i <= headers@.len(),
            spec_conn_tokens(headers@) == spec_conn_tokens(headers@.skip(i as int)),
            forall|j: int| 0 <= j < i ==> !name_matches_ci(headers@[j].0@, "connection"@),
        decreases headers@.len() - i,
    {
        proof {
            assert(headers@.skip(i as int)[0] == headers@[i as int]);
            assert(headers@.skip(i as int).skip(1) =~= headers@.skip(i as int + 1));
        }
        if name_eq_ci(headers[i].0.as_str(), "connection") {
            let parts = split_char(headers[i].1.as_str(), ',');
            let mut out: Vec<String> = Vec::new();
            let mut j: usize = 0;
            while j < parts.len()
                invariant
                    0 <= j <= parts@.len(),
                    parts@.len() == spec_split(headers@[i as int].1@, ',').len(),
                    forall|m: int|
                        0 <= m < parts@.len() ==> parts@[m]@ == spec_split(
                            headers@[i as int].1@,
                            ',',
                        )[m],
                    out@.len() == j,
                    forall|m: int|
                        0 <= m < j ==> (#[trigger] out@[m])@ == spec_trim(
                            spec_split(headers@[i as int].1@, ',')[m],
                        ),
                decreases parts@.len() - j,
            {
                out.push(trim_spaces(parts[j].as_str()));
                j += 1;
            }
            proof {
                assert(out@.map_values(|t: String| t@) =~= spec_conn_value_tokens(
                    headers@[i as int].1@,
                ));
            }
            return out;
        }
        i += 1;
    }
    proof {
        assert(headers@.skip(headers@.len() as int) =~= Seq::<(String, String)>::empty());
    }
    Vec::new()
}

/// Scrubs a header list for forwarding across the proxy boundary: removes
/// the nine canonical hop-by-hop headers and every header named in the
/// `Connection` header, keeping everything else in order and untouched.
pub fn scrub_headers(headers: Vec<(String, String)>) -> (r: Vec<(String, String)>)
    ensures
        r@ == spec_scrub(headers@, spec_conn_tokens(headers@)),
        forall|i: int|
            0 <= i < r@.len() ==> keep_header(
                (#[trigger] r@[i]).0@,
                spec_conn_tokens(headers@),
            ),
{
    let tokens = conn_tokens(&headers);
    let ghost tks = spec_conn_tokens(headers@);
    let ghost all = headers@;
    let mut rest = headers;
    let mut out: Vec<(String, String)> = Vec::new();
    proof {
        assert(rest@.skip(0) =~= all);
    }
    let mut i: usize = 0;
    let total = rest.len();
    while rest.len() > 0
        invariant
            tokens@.map_values(|t: String| t@) =~= tks,
            i + rest@.len() == total,
            total == all.len(),
            rest@ =~= all.skip(i as int),
            out@ + spec_scrub(rest@, tks) =~= spec_scrub(all, tks),
        decreases rest@.len(),
    {
        let ghost rest0 = rest@;
        let (name, value) = rest.remove(0);
        proof {
            assert(rest@ =~= rest0.skip(1));
            assert(rest0[0] == all[i as int]);
        }
        let mut hit = is_hop_header(name.as_str());
        let mut j: usize = 0;
        while j < tokens.len() && !hit
            invariant
                tokens@.map_values(|t: String| t@) =~= tks,
                0 <= j <= tokens@.len(),
                name@ == rest0[0].0@,
                hit ==> !keep_header(name@, tks),
                !hit ==> !is_hop_name(name@) && (forall|m: int|
                    0 <= m < j ==> !name_matches_ci(name@, #[trigger] tks[m])),
            decreases tokens@.len() - j,
        {
            proof {
                assert(tks[j as int] == tokens@.map_values(|t: String| t@)[j as int]);
            }
            if name_eq_ci(name.as_str(), tokens[j].as_str()) {
                hit = true;
            }
            j += 1;
        }
        if !hit {
            out.push((name, value));
        }
        proof {
            assert(out@ + spec_scrub(rest@, tks) =~= spec_scrub(all, tks));
        }
        i += 1;
    }
    proof {
        assert(spec_scrub(rest@, tks) =~= Seq::<(String, String)>::empty());
        assert(out@ =~= spec_scrub(all, tks));
        assert forall|m: int| 0 <= m < out@.len() implies keep_header(
            (#[trigger] out@[m]).0@,
            tks,
        ) by {
            lemma_scrub_removes_hop_headers(all, tks, m);
        }
    }
    out
}

// ---------------------------------------------------------------------------
// Request routing
// ---------------------------------------------------------------------------
/// What the proxy does with one parsed request head.
#[derive(Debug, Clone, PartialEq)]
pub enum RequestAction {
    /// Answer 407 with a `Proxy-Authenticate: Basic` challenge.
    RejectAuth,
    /// Answer 400: the request target is malformed or missing.
    BadUri,
    /// Answer 400: a relative request without a `Host` header.
    MissingHost,
    /// Answer 200 and upgrade: open a tunnel to the target.
    Connect(Address),
    /// Forward the request to the target; when the URI was relative it is
    /// rewritten to the absolute form carried here.
    Forward(Address, Option<String>),
}

/// The routing decision at the specification level.
pub enum ActionSpec {
    RejectAuth,
    BadUri,
    MissingHost,
    Connect(AddrSpec),
    Forward(AddrSpec, Option<Seq<char>>),
}

/// The action carries what the specification-level decision says.
pub open spec fn action_is(a: RequestAction, b: ActionSpec) -> bool {
    match (a, b) {
        (RequestAction::RejectAuth, ActionSpec::RejectAuth) => true,
        (RequestAction::BadUri, ActionSpec::BadUri) => true,
        (RequestAction::MissingHost, ActionSpec::MissingHost) => true,
        (RequestAction::Connect(x), ActionSpec::Connect(y)) => addr_is(x, y),
        (RequestAction::Forward(x, u), ActionSpec::Forward(y, v)) => addr_is(x, y) && match (
            u,
            v,
        ) {
            (Some(us), Some(vs)) => us@ == vs,
            (None, None) => true,
            _ => false,
        },
        _ => false,
    }
}

/// The request state machine's decision: authentication first; then the
/// target, from the URI's authority or — for non-CONNECT requests — from the
/// `Host` header, with port 80 as the default; a CONNECT becomes a tunnel;
/// anything else is forwarded, with a relative URI rewritten to absolute
/// form.
pub open spec fn spec_route(
    method: Seq<char>,
    authority: Option<Seq<char>>,
    has_scheme: bool,
    host_header: Option<Seq<char>>,
    path_and_query: Seq<char>,
    auth_ok: bool,
) -> ActionSpec {
    if !auth_ok {
        ActionSpec::RejectAuth
    } else {
        let is_connect = method == "CONNECT"@;
        let target_src: Option<Seq<char>> = if authority is Some {
            authority
        } else if !is_connect {
            host_header
        } else {
            None
        };
        match target_src {
            None => if is_connect {
                ActionSpec::BadUri
            } else {
                ActionSpec::MissingHost
            },
            Some(t) => match spec_parse_authority(t, 80) {
                None => ActionSpec::BadUri,
                Some(a) => if is_connect {
                    ActionSpec::Connect(a)
                } else {
                    ActionSpec::Forward(
                        a,
                        if !has_scheme && authority is None {
                            Some("http://"@ + host_header->0 + path_and_query)
                        } else {
                            None
                        },
                    )
                },
            },
        }
    }
}

/// Routes one request head.
pub fn route_request(
    method: &str,
    authority: Option<&str>,
    has_scheme: bool,
    host_header: Option<&str>,
    path_and_query: &str,
    auth_header: Option<&str>,
    username: &Option<String>,
    password: &Option<String>,
) -> (r: RequestAction)
    ensures
        action_is(
            r,
            spec_route(
                method@,
                match authority {
                    Some(a) => Some(a@),
                    None => None,
                },
                has_scheme,
                match host_header {
                    Some(h) => Some(h@),
                    None => None,
                },
                path_and_query@,
                spec_verify_auth(
                    match auth_header {
                        Some(h) => Some(h@),
                        None => None,
                    },
                    match username {
                        Some(u) => Some(vstd::utf8::encode_utf8(u@)),
                        None => None,
                    },
                    match password {
                        Some(p) => Some(vstd::utf8::encode_utf8(p@)),
                        None => None,
                    },
                ),
            ),
        ),
{
    if !verify_auth(auth_header, username, password) {
        return RequestAction::RejectAuth;
    }
    let is_connect = str_eq(method, "CONNECT");
    let target_src: Option<&str> = match authority {
        Some(a) => Some(a),
        None => if !is_connect {
            host_header
        } else {
            None
        },
    };
    let t = match target_src {
        Some(t) => t,
        None => {
            if is_connect {
                return RequestAction::BadUri;
            } else {
                return RequestAction::MissingHost;
            }
        }
    };
    let addr = match parse_authority(t, 80) {
        Some(a) => a,
        None => {
            return RequestAction::BadUri;
        }
    };
    if is_connect {
        return RequestAction::Connect(addr);
    }
    let rewritten: Option<String> = if !has_scheme && authority.is_none() {
        let host = match host_header {
            Some(h) => h,
            None => "",
        };
        Some(concat3("http://", host, path_and_query))
    } else {
        None
    };
    RequestAction::Forward(addr, rewritten)
}

// ---------------------------------------------------------------------------
// The server's configuration surface
// ---------------------------------------------------------------------------
/// Optional Basic credentials for the proxy.
#[derive(Debug, Clone, PartialEq)]
pub struct AuthConfig {
    pub username: String,
    pub password: String,
}

/// The server's options: where to bind, which net carries the payload, which
/// net binds the listener, and optional credentials.
#[derive(Debug, Clone, PartialEq)]
pub struct HttpServerConfig {
    pub bind: String,
    pub net: String,
    pub listen: String,
    pub auth: Option<AuthConfig>,
}

/// The per-connection handler's state: the payload net and the credentials it
/// demands.
#[derive(Debug, Clone, PartialEq)]
pub struct HttpServer {
    pub net: String,
    pub username: Option<String>,
    pub password: Option<String>,
}

/// The whole server: the handler, the listener net, and the bind address.
#[derive(Debug, Clone, PartialEq)]
pub struct Http {
    pub server: HttpServer,
    pub listen_net: String,
    pub bind: String,
}

impl HttpServer {
    /// A handler that accepts every request.
    pub fn new(net: String) -> (r: Self)
        ensures
            r.net == net,
            r.username is None,
            r.password is None,
    {
        HttpServer { net, username: None, password: None }
    }

    /// A handler that demands the given Basic credentials.
    pub fn with_auth(net: String, username: String, password: String) -> (r: Self)
        ensures
            r.net == net,
            r.username == Some(username),
            r.password == Some(password),
    {
        HttpServer { net, username: Some(username), password: Some(password) }
    }
}

impl Http {
    /// A server without authentication.
    pub fn new(listen_net: String, net: String, bind: String) -> (r: Self)
        ensures
            r.listen_net == listen_net,
            r.bind == bind,
            r.server.net == net,
            r.server.username is None,
            r.server.password is None,
    {
        Http { server: HttpServer::new(net), listen_net, bind }
    }

    /// A server demanding Basic credentials.
    pub fn with_auth(
        listen_net: String,
        net: String,
        bind: String,
        username: String,
        password: String,
    ) -> (r: Self)
        ensures
            r.listen_net == listen_net,
            r.bind == bind,
            r.server.net == net,
            r.server.username == Some(username),
            r.server.password == Some(password),
    {
        Http { server: HttpServer::with_auth(net, username, password), listen_net, bind }
    }

    /// Builds the server from its configuration.
    pub fn build(config: HttpServerConfig) -> (r: Self)
        ensures
            r.listen_net == config.listen,
            r.bind == config.bind,
            r.server.net == config.net,
            match config.auth {
                Some(a) => r.server.username == Some(a.username) && r.server.password == Some(
                    a.password,
                ),
                None => r.server.username is None && r.server.password is None,
            },
    {
        let HttpServerConfig { bind, net, listen, auth } = config;
        match auth {
            Some(a) => Http::with_auth(listen, net, bind, a.username, a.password),
            None => Http::new(listen, net, bind),
        }
    }
}

} // verus!

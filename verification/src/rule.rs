//! The rule router: first-match dispatch over domain, IP-CIDR, GeoIP and
//! catch-all matchers.

use vstd::prelude::*;

use crate::address::{spec_cidr_contains, Address, IpAddress, IpCidr};
use crate::strutil::str_eq;
use crate::Error;
use vstd::string::StrSliceExecFns;

verus! {

/// How a domain matcher compares hosts against its set.
#[derive(Debug, Clone, Copy, PartialEq, Eq)]
pub enum DomainMatcherMethod {
    /// The host equals an entry or ends with a dot followed by an entry.
    Suffix,
    /// An entry occurs somewhere in the host.
    Keyword,
    /// The host equals an entry.
    Match,
}

/// A matcher over the destination domain name.
#[derive(Debug, Clone, PartialEq)]
pub struct DomainMatcher {
    pub method: DomainMatcherMethod,
    pub domain: Vec<String>,
}

/// A matcher over the destination IP.
#[derive(Debug, Clone, PartialEq)]
pub struct IpCidrMatcher {
    pub ipcidr: Vec<IpCidr>,
}

/// A matcher over the inbound context's source IP.
#[derive(Debug, Clone, PartialEq)]
pub struct SrcIpCidrMatcher {
    pub ipcidr: Vec<IpCidr>,
}

/// A matcher over the destination's country, as an external geo lookup
/// reported it.
#[derive(Debug, Clone, PartialEq)]
pub struct GeoIpMatcher {
    pub country: String,
}

/// The catch-all matcher.
#[derive(Debug, Clone, PartialEq)]
pub struct AnyMatcher {}

/// A rule's condition.
#[derive(Debug, Clone, PartialEq)]
pub enum Matcher {
    Domain(DomainMatcher),
    IpCidr(IpCidrMatcher),
    SrcIpCidr(SrcIpCidrMatcher),
    GeoIp(GeoIpMatcher),
    Any(AnyMatcher),
}

/// One rule: a condition and the net the flow is dispatched to.
#[derive(Debug, Clone, PartialEq)]
pub struct RuleItem {
    pub target: String,
    pub matcher: Matcher,
}

/// What a matcher sees of one connection: the destination, the cached forward
/// resolution when the destination is a domain, the inbound source address,
/// and the country an external geo lookup reported for the destination.
#[derive(Debug, Clone, PartialEq)]
pub struct MatchContext {
    pub dest: Address,
    pub resolved_ip: Option<IpAddress>,
    pub src_ip: Option<IpAddress>,
    pub country: Option<String>,
}

// ---------------------------------------------------------------------------
// Matcher semantics
// ---------------------------------------------------------------------------
/// `h` equals `d` or ends with a dot followed by `d`.
pub open spec fn spec_suffix_matches(d: Seq<char>, h: Seq<char>) -> bool {
    h == d || (h.len() > d.len() && h.subrange(h.len() - d.len() - 1, h.len() as int) == seq!['.']
        + d)
}

/// `d` occurs somewhere in `h`.
pub open spec fn spec_keyword_matches(d: Seq<char>, h: Seq<char>) -> bool {
    exists|i: int| 0 <= i <= h.len() - d.len() && #[trigger] h.subrange(i, i + d.len()) == d
}

/// One pattern against one host, by method.
pub open spec fn spec_domain_entry_matches(
    method: DomainMatcherMethod,
    d: Seq<char>,
    h: Seq<char>,
) -> bool {
    match method {
        DomainMatcherMethod::Suffix => spec_suffix_matches(d, h),
        DomainMatcherMethod::Keyword => spec_keyword_matches(d, h),
        DomainMatcherMethod::Match => d == h,
    }
}

/// A set of patterns accepts host `h` exactly when some entry matches it by
/// the given method.
pub open spec fn spec_domain_set_matches(
    method: DomainMatcherMethod,
    ds: Seq<String>,
    h: Seq<char>,
) -> bool {
    exists|i: int| 0 <= i < ds.len() && spec_domain_entry_matches(method, ds[i]@, h)
}

/// A domain matcher accepts host `h` exactly when some entry of its set
/// matches it by the matcher's method.
pub open spec fn spec_domain_matches(m: DomainMatcher, h: Seq<char>) -> bool {
    spec_domain_set_matches(m.method, m.domain@, h)
}

/// The destination IP a CIDR matcher tests: the socket address itself, or the
/// cached forward resolution of a domain destination.
pub open spec fn spec_dest_ip(ctx: MatchContext) -> Option<IpAddress> {
    match ctx.dest {
        Address::Socket(ip, _) => Some(ip),
        Address::Domain(_, _) => ctx.resolved_ip,
    }
}

/// Some prefix of the list contains the address.
pub open spec fn spec_cidr_list_contains(list: Seq<IpCidr>, ip: IpAddress) -> bool {
    exists|i: int| 0 <= i < list.len() && spec_cidr_contains(list[i], ip)
}

/// What each matcher accepts.
pub open spec fn spec_matcher_accepts(m: Matcher, ctx: MatchContext) -> bool {
    match m {
        Matcher::Domain(dm) => match ctx.dest {
            Address::Domain(h, _) => spec_domain_matches(dm, h@),
            _ => false,
        },
        Matcher::IpCidr(cm) => match spec_dest_ip(ctx) {
            Some(ip) => spec_cidr_list_contains(cm.ipcidr@, ip),
            None => false,
        },
        Matcher::SrcIpCidr(cm) => match ctx.src_ip {
            Some(ip) => spec_cidr_list_contains(cm.ipcidr@, ip),
            None => false,
        },
        Matcher::GeoIp(gm) => match ctx.country {
            Some(c) => c@ == gm.country@,
            None => false,
        },
        Matcher::Any(_) => true,
    }
}

/// Every prefix in a matcher's list is well formed.
pub open spec fn cidr_list_wf(list: Seq<IpCidr>) -> bool {
    forall|i: int| 0 <= i < list.len() ==> (#[trigger] list[i]).wf()
}

/// A matcher's prefixes are all well formed.
pub open spec fn matcher_wf(m: Matcher) -> bool {
    match m {
        Matcher::IpCidr(cm) => cidr_list_wf(cm.ipcidr@),
        Matcher::SrcIpCidr(cm) => cidr_list_wf(cm.ipcidr@),
        _ => true,
    }
}

// ---------------------------------------------------------------------------
// Matcher deciders
// ---------------------------------------------------------------------------
/// Decides the suffix relation: the host equals the entry, or ends with a dot
/// followed by the entry.
pub fn suffix_matches(d: &str, h: &str) -> (r: bool)
    ensures
        r == spec_suffix_matches(d@, h@),
{
    if str_eq(d, h) {
        return true;
    }
    let dl = d.unicode_len();
    let hl = h.unicode_len();
    if hl <= dl {
        return false;
    }
    if h.get_char(hl - dl - 1) != '.' {
        proof {
            let tail = h@.subrange(h@.len() - d@.len() - 1, h@.len() as int);
            assert(tail[0] == h@[h@.len() - d@.len() - 1]);
            assert((seq!['.'] + d@)[0] == '.');
        }
        return false;
    }
    let tail = h.substring_char(hl - dl, hl);
    let r = str_eq(tail, d);
    proof {
        let t = h@.subrange(h@.len() - d@.len() - 1, h@.len() as int);
        if r {
            assert(t =~= seq!['.'] + d@);
        } else {
            assert(t.subrange(1, t.len() as int) =~= tail@);
            if t == seq!['.'] + d@ {
                assert(t.subrange(1, t.len() as int) =~= d@);
            }
        }
    }
    r
}

/// Decides whether `d` occurs somewhere in `h`.
pub fn keyword_matches(d: &str, h: &str) -> (r: bool)
    ensures
        r == spec_keyword_matches(d@, h@),
{
    let dl = d.unicode_len();
    let hl = h.unicode_len();
    if dl > hl {
        return false;
    }
    if dl == 0 {
        proof {
            assert(h@.subrange(0, 0 + d@.len() as int) =~= d@);
            assert(spec_keyword_matches(d@, h@)) by {
                assert(0 <= 0 <= h@.len() - d@.len() && h@.subrange(0, 0 + d@.len() as int)
                    == d@);
            }
        }
        return true;
    }
    let mut i: usize = 0;
    while i < hl - dl + 1
        invariant
            0 <= i <= hl - dl + 1,
            1 <= dl <= hl,
            dl == d@.len(),
            hl == h@.len(),
            forall|j: int| 0 <= j < i ==> #[trigger] h@.subrange(j, j + d@.len()) != d@,
        decreases hl - dl + 1 - i,
    {
        let sub = h.substring_char(i, i + dl);
        if str_eq(sub, d) {
            return true;
        }
        i += 1;
    }
    false
}

impl DomainMatcher {
    /// Decides whether this matcher accepts host `h`.
    pub fn matches(&self, h: &str) -> (r: bool)
        ensures
            r == spec_domain_matches(*self, h@),
    {
        let mut i: usize = 0;
        while i < self.domain.len()
            invariant
                0 <= i <= self.domain@.len(),
                forall|j: int|
                    0 <= j < i ==> !spec_domain_entry_matches(
                        self.method,
                        self.domain@[j]@,
                        h@,
                    ),
            decreases self.domain@.len() - i,
        {
            let hit = match self.method {
                DomainMatcherMethod::Suffix => suffix_matches(self.domain[i].as_str(), h),
                DomainMatcherMethod::Keyword => keyword_matches(self.domain[i].as_str(), h),
                DomainMatcherMethod::Match => str_eq(self.domain[i].as_str(), h),
            };
            if hit {
                return true;
            }
            i += 1;
        }
        false
    }
}

/// Decides membership of `ip` in any of the prefixes.
pub fn cidr_list_contains(list: &Vec<IpCidr>, ip: &IpAddress) -> (r: bool)
    requires
        cidr_list_wf(list@),
    ensures
        r == spec_cidr_list_contains(list@, *ip),
{
    let mut i: usize = 0;
    while i < list.len()
        invariant
            0 <= i <= list@.len(),
            cidr_list_wf(list@),
            forall|j: int| 0 <= j < i ==> !spec_cidr_contains(list@[j], *ip),
        decreases list@.len() - i,
    {
        if list[i].contains(ip) {
            return true;
        }
        i += 1;
    }
    false
}

/// Decides whether a matcher accepts the connection.
pub fn matcher_accepts(m: &Matcher, ctx: &MatchContext) -> (r: bool)
    requires
        matcher_wf(*m),
    ensures
        r == spec_matcher_accepts(*m, *ctx),
{
    match m {
        Matcher::Domain(dm) => match &ctx.dest {
            Address::Domain(h, _) => dm.matches(h.as_str()),
            _ => false,
        },
        Matcher::IpCidr(cm) => {
            let ip = match &ctx.dest {
                Address::Socket(ip, _) => Some(*ip),
                Address::Domain(_, _) => ctx.resolved_ip,
            };
            match ip {
                Some(ip) => cidr_list_contains(&cm.ipcidr, &ip),
                None => false,
            }
        }
        Matcher::SrcIpCidr(cm) => match &ctx.src_ip {
            Some(ip) => cidr_list_contains(&cm.ipcidr, ip),
            None => false,
        },
        Matcher::GeoIp(gm) => match &ctx.country {
            Some(c) => str_eq(c.as_str(), gm.country.as_str()),
            None => false,
        },
        Matcher::Any(_) => true,
    }
}

// ---------------------------------------------------------------------------
// First-match dispatch
// ---------------------------------------------------------------------------
/// The target of the first rule whose matcher accepts the connection.
pub open spec fn spec_first_match(rules: Seq<RuleItem>, ctx: MatchContext) -> Option<Seq<char>>
    decreases rules.len(),
{
    if rules.len() == 0 {
        None
    } else if spec_matcher_accepts(rules[0].matcher, ctx) {
        Some(rules[0].target@)
    } else {
        spec_first_match(rules.skip(1), ctx)
    }
}

/// Every rule's matcher is well formed.
pub open spec fn rules_wf(rules: Seq<RuleItem>) -> bool {
    forall|i: int| 0 <= i < rules.len() ==> matcher_wf((#[trigger] rules[i]).matcher)
}

/// Dispatches one connection: the target of the first rule whose matcher
/// accepts it; with no matching rule the dispatch fails.
pub fn dispatch(rules: &Vec<RuleItem>, ctx: &MatchContext) -> (r: Result<String, Error>)
    requires
        rules_wf(rules@),
    ensures
        match r {
            Ok(t) => spec_first_match(rules@, *ctx) == Some(t@),
            Err(e) => spec_first_match(rules@, *ctx) is None && e == Error::NoRuleMatched,
        },
{
    proof {
        assert(rules@.skip(0) =~= rules@);
    }
    let mut i: usize = 0;
    while i < rules.len()
        invariant
            0 <= i <= rules@.len(),
            rules_wf(rules@),
            spec_first_match(rules@, *ctx) == spec_first_match(rules@.skip(i as int), *ctx),
            forall|j: int| 0 <= j < i ==> !spec_matcher_accepts(rules@[j].matcher, *ctx),
        decreases rules@.len() - i,
    {
        proof {
            assert(rules@.skip(i as int)[0] == rules@[i as int]);
            assert(rules@.skip(i as int).skip(1) =~= rules@.skip(i as int + 1));
        }
        if matcher_accepts(&rules[i].matcher, ctx) {
            return Ok(rules[i].target.clone());
        }
        i += 1;
    }
    Err(Error::NoRuleMatched)
}

// ---------------------------------------------------------------------------
// Coalescing
// ---------------------------------------------------------------------------
// ---------------------------------------------------------------------------
// Coalescing
// ---------------------------------------------------------------------------
/// A host matches a united pattern set exactly when it matches one of its two
/// parts.
proof fn lemma_domain_union(
    method: DomainMatcherMethod,
    a: Seq<String>,
    b: Seq<String>,
    h: Seq<char>,
)
    ensures
        spec_domain_set_matches(method, a + b, h) == (spec_domain_set_matches(method, a, h)
            || spec_domain_set_matches(method, b, h)),
{
    let c = a + b;
    if spec_domain_set_matches(method, c, h) {
        let i = choose|i: int| 0 <= i < c.len() && spec_domain_entry_matches(method, c[i]@, h);
        if i < a.len() {
            assert(c[i] == a[i]);
        } else {
            assert(c[i] == b[i - a.len()]);
        }
    }
    if spec_domain_set_matches(method, a, h) {
        let i = choose|i: int| 0 <= i < a.len() && spec_domain_entry_matches(method, a[i]@, h);
        assert(c[i] == a[i]);
    }
    if spec_domain_set_matches(method, b, h) {
        let i = choose|i: int| 0 <= i < b.len() && spec_domain_entry_matches(method, b[i]@, h);
        assert(c[a.len() + i] == b[i]);
    }
}

/// An address lies in a united prefix list exactly when it lies in one of its
/// two parts.
proof fn lemma_cidr_union(a: Seq<IpCidr>, b: Seq<IpCidr>, ip: IpAddress)
    ensures
        spec_cidr_list_contains(a + b, ip) == (spec_cidr_list_contains(a, ip)
            || spec_cidr_list_contains(b, ip)),
{
    let c = a + b;
    if spec_cidr_list_contains(c, ip) {
        let i = choose|i: int| 0 <= i < c.len() && spec_cidr_contains(c[i], ip);
        if i < a.len() {
            assert(c[i] == a[i]);
        } else {
            assert(c[i] == b[i - a.len()]);
        }
    }
    if spec_cidr_list_contains(a, ip) {
        let i = choose|i: int| 0 <= i < a.len() && spec_cidr_contains(a[i], ip);
        assert(c[i] == a[i]);
    }
    if spec_cidr_list_contains(b, ip) {
        let i = choose|i: int| 0 <= i < b.len() && spec_cidr_contains(b[i], ip);
        assert(c[a.len() + i] == b[i]);
    }
}

/// Appends one pattern list to another.
fn append_strings(dst: &mut Vec<String>, src: &Vec<String>)
    ensures
        final (dst)@ =~= old(dst)@ + src@,
{
    let ghost before = dst@;
    let mut k: usize = 0;
    while k < src.len()
        invariant
            0 <= k <= src@.len(),
            dst@ =~= before + src@.take(k as int),
        decreases src@.len() - k,
    {
        proof {
            assert(src@.take(k as int + 1) =~= src@.take(k as int).push(src@[k as int]));
        }
        dst.push(src[k].clone());
        k += 1;
    }
    proof {
        assert(src@.take(src@.len() as int) =~= src@);
    }
}

/// Appends one prefix list to another.
fn append_cidrs(dst: &mut Vec<IpCidr>, src: &Vec<IpCidr>)
    ensures
        final (dst)@ =~= old(dst)@ + src@,
{
    let ghost before = dst@;
    let mut k: usize = 0;
    while k < src.len()
        invariant
            0 <= k <= src@.len(),
            dst@ =~= before + src@.take(k as int),
        decreases src@.len() - k,
    {
        proof {
            assert(src@.take(k as int + 1) =~= src@.take(k as int).push(src@[k as int]));
        }
        dst.push(src[k]);
        k += 1;
    }
    proof {
        assert(src@.take(src@.len() as int) =~= src@);
    }
}

impl RuleItem {
    /// Tries to absorb `other` into this rule: possible when the two targets
    /// agree and the matchers are of the same kind (and, for domain matchers,
    /// of the same method); the pattern sets are then united. An absorbed
    /// rule accepts exactly what either of the two rules accepted.
    pub fn merge(&mut self, other: &RuleItem) -> (merged: bool)
        ensures
            !merged ==> *final (self) == *old(self),
            merged ==> final (self).target == old(self).target,
            merged ==> other.target@ == old(self).target@,
            merged ==> forall|ctx: MatchContext|
                #![trigger spec_matcher_accepts(final (self).matcher, ctx)]
                spec_matcher_accepts(final (self).matcher, ctx) == (spec_matcher_accepts(
                    old(self).matcher,
                    ctx,
                ) || spec_matcher_accepts(other.matcher, ctx)),
            merged ==> (matcher_wf(old(self).matcher) && matcher_wf(other.matcher) ==> matcher_wf(
                final (self).matcher,
            )),
    {
        if !str_eq(self.target.as_str(), other.target.as_str()) {
            return false;
        }
        match (&mut self.matcher, &other.matcher) {
            (Matcher::Domain(dm), Matcher::Domain(dm2)) => {
                let same_method = match (dm.method, dm2.method) {
                    (DomainMatcherMethod::Suffix, DomainMatcherMethod::Suffix) => true,
                    (DomainMatcherMethod::Keyword, DomainMatcherMethod::Keyword) => true,
                    (DomainMatcherMethod::Match, DomainMatcherMethod::Match) => true,
                    _ => false,
                };
                if !same_method {
                    return false;
                }
                let ghost before = dm.domain@;
                append_strings(&mut dm.domain, &dm2.domain);
                proof {
                    assert forall|h: Seq<char>| true implies #[trigger] spec_domain_set_matches(
                        dm.method,
                        dm.domain@,
                        h,
                    ) == (spec_domain_set_matches(dm.method, before, h)
                        || spec_domain_set_matches(dm.method, dm2.domain@, h)) by {
                        assert(dm.domain@ =~= before + dm2.domain@);
                        lemma_domain_union(dm.method, before, dm2.domain@, h);
                    }
                }
                true
            }
            (Matcher::IpCidr(cm), Matcher::IpCidr(cm2)) => {
                let ghost before = cm.ipcidr@;
                append_cidrs(&mut cm.ipcidr, &cm2.ipcidr);
                proof {
                    assert forall|ip: IpAddress| true implies #[trigger] spec_cidr_list_contains(
                        cm.ipcidr@,
                        ip,
                    ) == (spec_cidr_list_contains(before, ip) || spec_cidr_list_contains(
                        cm2.ipcidr@,
                        ip,
                    )) by {
                        assert(cm.ipcidr@ =~= before + cm2.ipcidr@);
                        lemma_cidr_union(before, cm2.ipcidr@, ip);
                    }
                }
                true
            }
            (Matcher::SrcIpCidr(cm), Matcher::SrcIpCidr(cm2)) => {
                let ghost before = cm.ipcidr@;
                append_cidrs(&mut cm.ipcidr, &cm2.ipcidr);
                proof {
                    assert forall|ip: IpAddress| true implies #[trigger] spec_cidr_list_contains(
                        cm.ipcidr@,
                        ip,
                    ) == (spec_cidr_list_contains(before, ip) || spec_cidr_list_contains(
                        cm2.ipcidr@,
                        ip,
                    )) by {
                        assert(cm.ipcidr@ =~= before + cm2.ipcidr@);
                        lemma_cidr_union(before, cm2.ipcidr@, ip);
                    }
                }
                true
            }
            _ => false,
        }
    }
}

/// Replacing two adjacent rules with the same target by one whose matcher
/// accepts exactly what either accepted leaves every dispatch unchanged:
/// coalescing is semantically equivalent to the expanded form.
pub proof fn lemma_coalesce_equiv(
    pre: Seq<RuleItem>,
    r1: RuleItem,
    r2: RuleItem,
    m: RuleItem,
    post: Seq<RuleItem>,
    ctx: MatchContext,
)
    requires
        m.target@ == r1.target@,
        r2.target@ == r1.target@,
        forall|c: MatchContext|
            spec_matcher_accepts(m.matcher, c) == (spec_matcher_accepts(r1.matcher, c)
                || spec_matcher_accepts(r2.matcher, c)),
    ensures
        spec_first_match(pre + seq![r1, r2] + post, ctx) == spec_first_match(
            pre + seq![m] + post,
            ctx,
        ),
    decreases pre.len(),
{
    let a = pre + seq![r1, r2] + post;
    let b = pre + seq![m] + post;
    if pre.len() == 0 {
        assert(a[0] == r1);
        assert(b[0] == m);
        assert(a.skip(1)[0] == r2);
        if spec_matcher_accepts(r1.matcher, ctx) {
            assert(spec_matcher_accepts(m.matcher, ctx));
            assert(spec_first_match(a, ctx) == Some(r1.target@));
            assert(spec_first_match(b, ctx) == Some(m.target@));
        } else if spec_matcher_accepts(r2.matcher, ctx) {
            assert(spec_matcher_accepts(m.matcher, ctx));
            assert(spec_first_match(a, ctx) == spec_first_match(a.skip(1), ctx));
            assert(spec_first_match(a.skip(1), ctx) == Some(r2.target@));
            assert(spec_first_match(b, ctx) == Some(m.target@));
        } else {
            assert(!spec_matcher_accepts(m.matcher, ctx));
            assert(a.skip(1).skip(1) =~= post);
            assert(b.skip(1) =~= post);
            assert(spec_first_match(a, ctx) == spec_first_match(post, ctx));
            assert(spec_first_match(b, ctx) == spec_first_match(post, ctx));
        }
    } else {
        assert(a[0] == pre[0]);
        assert(b[0] == pre[0]);
        assert(a.skip(1) =~= pre.skip(1) + seq![r1, r2] + post);
        assert(b.skip(1) =~= pre.skip(1) + seq![m] + post);
        lemma_coalesce_equiv(pre.skip(1), r1, r2, m, post, ctx);
    }
}

/// Folds a rule list, absorbing each rule into its predecessor where targets
/// and matcher kinds allow it. The folded list dispatches every connection
/// exactly as the expanded list does.
pub fn coalesce_rules(items: Vec<RuleItem>) -> (r: Vec<RuleItem>)
    requires
        rules_wf(items@),
    ensures
        rules_wf(r@),
        r@.len() <= items@.len(),
        forall|ctx: MatchContext|
            spec_first_match(r@, ctx) == spec_first_match(items@, ctx),
{
    let ghost orig = items@;
    let mut rest = items;
    let mut out: Vec<RuleItem> = Vec::new();
    proof {
        assert(out@ + rest@ =~= orig);
    }
    while rest.len() > 0
        invariant
            rules_wf(orig),
            rules_wf(out@),
            rules_wf(rest@),
            out@.len() + rest@.len() <= orig.len(),
            forall|ctx: MatchContext|
                spec_first_match(out@ + rest@, ctx) == spec_first_match(orig, ctx),
        decreases rest@.len(),
    {
        let ghost rest0 = rest@;
        let item = rest.remove(0);
        proof {
            assert(rest@ =~= rest0.skip(1));
            assert(rest0[0] == item);
            assert forall|i: int| 0 <= i < rest@.len() implies matcher_wf(
                (#[trigger] rest@[i]).matcher,
            ) by {
                assert(rest@[i] == rest0[i + 1]);
            }
        }
        let mut merged = false;
        if out.len() > 0 {
            let ghost out_before = out@;
            let idx = out.len() - 1;
            let mut last = out.remove(idx);
            let ghost out0 = out@;
            let ghost last0 = last;
            proof {
                assert(out0 =~= out_before.take(idx as int));
                assert(out_before =~= out0 + seq![last0]);
            }
            merged = last.merge(&item);
            let ghost last1 = last;
            out.push(last);
            proof {
                if merged {
                    assert(out@ =~= out0 + seq![last1]);
                    assert forall|c: MatchContext| #[trigger] spec_matcher_accepts(
                        last1.matcher,
                        c,
                    ) == (spec_matcher_accepts(last0.matcher, c) || spec_matcher_accepts(
                        item.matcher,
                        c,
                    )) by {
                        assert(spec_matcher_accepts(last1.matcher, c) == (spec_matcher_accepts(
                            last0.matcher,
                            c,
                        ) || spec_matcher_accepts(item.matcher, c)));
                    }
                    assert forall|ctx: MatchContext| true implies #[trigger] spec_first_match(
                        out@ + rest@,
                        ctx,
                    ) == spec_first_match(orig, ctx) by {
                        lemma_coalesce_equiv(out0, last0, item, last1, rest@, ctx);
                        assert(out0 + seq![last0, item] + rest@ =~= (out0 + seq![last0]) + (
                        rest0));
                        assert(out0 + seq![last1] + rest@ =~= out@ + rest@);
                        assert((out0 + seq![last0]) + rest0 =~= out_before + rest0);
                    }
                    assert forall|i: int| 0 <= i < out@.len() implies matcher_wf(
                        (#[trigger] out@[i]).matcher,
                    ) by {
                        if i < out@.len() - 1 {
                            assert(out@[i] == out_before[i]);
                        }
                    }
                } else {
                    assert(out@ =~= out_before);
                }
            }
        }
        if !merged {
            let ghost out_before = out@;
            out.push(item);
            proof {
                assert(out@ + rest@ =~= out_before + rest0);
                assert forall|i: int| 0 <= i < out@.len() implies matcher_wf(
                    (#[trigger] out@[i]).matcher,
                ) by {
                    if i < out@.len() - 1 {
                        assert(out@[i] == out_before[i]);
                    } else {
                        assert(out@[i] == rest0[0]);
                    }
                }
            }
        }
    }
    proof {
        assert(out@ + rest@ =~= out@);
    }
    out
}

} // verus!

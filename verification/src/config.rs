//! The canonical configuration: net and server descriptors keyed by id, with
//! structural merge and a serializer/parser pair over the document model.

use vstd::prelude::*;

use crate::json::{value_eq, value_equal, Value};
use crate::strmap::{seq_get, StrMap};
use crate::strutil::str_eq;
use crate::Error;

verus! {

/// A net descriptor: the net's type and its type-specific options.
#[derive(Debug, Clone, PartialEq)]
pub struct Net {
    pub net_type: String,
    pub opt: Value,
}

/// A server descriptor: the server's type, the net that binds its listener,
/// the net that carries its payload, and type-specific options.
#[derive(Debug, Clone, PartialEq)]
pub struct Server {
    pub server_type: String,
    pub listen: String,
    pub net: String,
    pub opt: Value,
}

/// A canonical configuration.
#[derive(Debug, Clone, PartialEq)]
pub struct Config {
    pub id: String,
    pub net: StrMap<Net>,
    pub server: StrMap<Server>,
}

impl Net {
    /// Builds a descriptor from a type name and options.
    pub fn new(net_type: &str, opt: Value) -> (r: Net)
        ensures
            r.net_type@ == net_type@,
            r.opt == opt,
    {
        Net { net_type: net_type.to_owned(), opt }
    }
}

/// Two net descriptors are interchangeable: same type, equal options.
pub open spec fn net_eq(a: Net, b: Net) -> bool {
    a.net_type@ == b.net_type@ && value_eq(a.opt, b.opt)
}

/// Two server descriptors are interchangeable.
pub open spec fn server_eq(a: Server, b: Server) -> bool {
    a.server_type@ == b.server_type@ && a.listen@ == b.listen@ && a.net@ == b.net@ && value_eq(
        a.opt,
        b.opt,
    )
}

/// Decides `net_eq`.
pub fn net_equal(a: &Net, b: &Net) -> (r: bool)
    ensures
        r == net_eq(*a, *b),
{
    str_eq(a.net_type.as_str(), b.net_type.as_str()) && value_equal(&a.opt, &b.opt)
}

/// Decides `server_eq`.
pub fn server_equal(a: &Server, b: &Server) -> (r: bool)
    ensures
        r == server_eq(*a, *b),
{
    str_eq(a.server_type.as_str(), b.server_type.as_str()) && str_eq(
        a.listen.as_str(),
        b.listen.as_str(),
    ) && str_eq(a.net.as_str(), b.net.as_str()) && value_equal(&a.opt, &b.opt)
}

/// Both tables have unique keys, and every descriptor's options form an
/// object.
pub open spec fn config_wf(c: Config) -> bool {
    &&& c.net.wf()
    &&& c.server.wf()
    &&& (forall|i: int| 0 <= i < c.net.entries@.len() ==> (#[trigger] c.net.entries@[i]).1.opt is Obj)
    &&& (forall|i: int|
        0 <= i < c.server.entries@.len() ==> (#[trigger] c.server.entries@[i]).1.opt is Obj)
}

/// Two configurations carry the same information: same id and, entry by
/// entry, the same descriptors.
pub open spec fn config_eq(a: Config, b: Config) -> bool {
    &&& a.id@ == b.id@
    &&& a.net.entries@.len() == b.net.entries@.len()
    &&& (forall|i: int|
        0 <= i < a.net.entries@.len() ==> (#[trigger] a.net.entries@[i]).0@
            == b.net.entries@[i].0@ && net_eq(a.net.entries@[i].1, b.net.entries@[i].1))
    &&& a.server.entries@.len() == b.server.entries@.len()
    &&& (forall|i: int|
        0 <= i < a.server.entries@.len() ==> (#[trigger] a.server.entries@[i]).0@
            == b.server.entries@[i].0@ && server_eq(a.server.entries@[i].1, b.server.entries@[i].1))
}

impl Config {
    /// An empty configuration.
    pub fn empty(id: &str) -> (r: Config)
        ensures
            r.id@ == id@,
            config_wf(r),
            r.net.entries@.len() == 0,
            r.server.entries@.len() == 0,
    {
        Config { id: id.to_owned(), net: StrMap::new(), server: StrMap::new() }
    }

    /// Structurally merges `other` into this configuration: both tables are
    /// united and on a key held by both the right side wins. The id is kept.
    pub fn merge(&mut self, other: Config)
        requires
            old(self).net.wf(),
            old(self).server.wf(),
            other.net.wf(),
            other.server.wf(),
        ensures
            final (self).id == old(self).id,
            final (self).net.wf(),
            final (self).server.wf(),
            forall|k: Seq<char>|
                final (self).net.spec_get(k) == if other.net.spec_get(k) is Some {
                    other.net.spec_get(k)
                } else {
                    old(self).net.spec_get(k)
                },
            forall|k: Seq<char>|
                final (self).server.spec_get(k) == if other.server.spec_get(k) is Some {
                    other.server.spec_get(k)
                } else {
                    old(self).server.spec_get(k)
                },
    {
        let Config { id: _, net, server } = other;
        merge_into(&mut self.net, net);
        merge_into(&mut self.server, server);
    }
}

/// Inserts every entry of `src` into `dst`: on a shared key, `src` wins.
fn merge_into<V>(dst: &mut StrMap<V>, src: StrMap<V>)
    requires
        old(dst).wf(),
        src.wf(),
    ensures
        final (dst).wf(),
        forall|k: Seq<char>|
            #[trigger] final (dst).spec_get(k) == if src.spec_get(k) is Some {
                src.spec_get(k)
            } else {
                old(dst).spec_get(k)
            },
{
    let ghost all = src.entries@;
    let mut rest = src;
    proof {
        assert(rest.entries@.skip(0) =~= all);
        assert(all.take(0) =~= Seq::<(String, V)>::empty());
    }
    let total = rest.entries.len();
    proof {
        assert(all.len() == total);
    }
    let mut taken: usize = 0;
    while rest.entries.len() > 0
        invariant
            dst.wf(),
            crate::strmap::keys_unique(all),
            all.len() <= usize::MAX,
            taken + rest.entries@.len() == all.len(),
            rest.entries@ =~= all.skip(taken as int),
            forall|k: Seq<char>|
                #[trigger] dst.spec_get(k) == if seq_get(all.take(taken as int), k) is Some {
                    seq_get(all.take(taken as int), k)
                } else {
                    old(dst).spec_get(k)
                },
        decreases rest.entries@.len(),
    {
        proof {
            assert(taken < all.len());
        }
        let ghost rest0 = rest.entries@;
        let ghost entry = all[taken as int];
        let (k, v) = rest.entries.remove(0);
        proof {
            assert(rest.entries@ =~= rest0.skip(1));
            assert(rest0[0] == all.skip(taken as int)[0]);
            assert(entry == rest0[0]);
            assert(k@ == entry.0@ && v == entry.1);
        }
        let ghost kview = k@;
        let ghost dst_before = *dst;
        dst.insert(k, v);
        proof {
            let t0 = taken as int;
            let t1 = taken as int + 1;
            assert(all.take(t1) =~= all.take(t0).push(entry));
            // the key just inserted does not occur earlier in `all`
            assert forall|j: int| 0 <= j < t0 implies all.take(t0)[j].0@ != kview by {
                assert(all.take(t0)[j] == all[j]);
            }
            crate::strmap::lemma_seq_get_absent(all.take(t0), kview);
            assert forall|k2: Seq<char>| true implies #[trigger] dst.spec_get(k2) == if seq_get(
                all.take(t1),
                k2,
            ) is Some {
                seq_get(all.take(t1), k2)
            } else {
                old(dst).spec_get(k2)
            } by {
                crate::strmap::lemma_seq_get_push(all.take(t0), entry, k2);
                if k2 == kview {
                    assert(seq_get(all.take(t0), kview) is None);
                    assert(seq_get(all.take(t1), kview) == Some(entry.1));
                    assert(dst.spec_get(kview) == Some(v));
                } else {
                    assert(dst.spec_get(k2) == dst_before.spec_get(k2));
                }
            }
        }
        taken += 1;
    }
    proof {
        assert(all.take(all.len() as int) =~= all);
    }
}

// ---------------------------------------------------------------------------
// Serialization to and from the document model
// ---------------------------------------------------------------------------
/// `v` is the rendering of the net descriptor `n`: an object whose first
/// field is the type name and whose remaining fields are the options.
pub open spec fn net_shape(n: Net, v: Value) -> bool {
    &&& n.opt is Obj
    &&& v is Obj
    &&& {
        let fs = v->Obj_0@;
        let os = n.opt->Obj_0@;
        &&& fs.len() == os.len() + 1
        &&& fs[0].0@ == "type"@
        &&& fs[0].1 == Value::Str(n.net_type)
        &&& fs.skip(1) =~= os
    }
}

/// `v` is the rendering of the server descriptor `s`: type, listen-net and
/// payload-net fields, then the options.
pub open spec fn server_shape(s: Server, v: Value) -> bool {
    &&& s.opt is Obj
    &&& v is Obj
    &&& {
        let fs = v->Obj_0@;
        let os = s.opt->Obj_0@;
        &&& fs.len() == os.len() + 3
        &&& fs[0].0@ == "type"@ && fs[0].1 == Value::Str(s.server_type)
        &&& fs[1].0@ == "listen"@ && fs[1].1 == Value::Str(s.listen)
        &&& fs[2].0@ == "net"@ && fs[2].1 == Value::Str(s.net)
        &&& fs.skip(3) =~= os
    }
}

/// `v` is the rendering of the configuration `c`.
pub open spec fn config_shape(c: Config, v: Value) -> bool {
    &&& v is Obj
    &&& {
        let fs = v->Obj_0@;
        &&& fs.len() == 3
        &&& fs[0].0@ == "id"@ && fs[0].1 == Value::Str(c.id)
        &&& fs[1].0@ == "net"@ && fs[1].1 is Obj
        &&& fs[2].0@ == "server"@ && fs[2].1 is Obj
        &&& {
            let nf = fs[1].1->Obj_0@;
            let sf = fs[2].1->Obj_0@;
            &&& nf.len() == c.net.entries@.len()
            &&& (forall|i: int|
                0 <= i < nf.len() ==> (#[trigger] nf[i]).0 == c.net.entries@[i].0 && net_shape(
                    c.net.entries@[i].1,
                    nf[i].1,
                ))
            &&& sf.len() == c.server.entries@.len()
            &&& (forall|i: int|
                0 <= i < sf.len() ==> (#[trigger] sf[i]).0 == c.server.entries@[i].0
                    && server_shape(c.server.entries@[i].1, sf[i].1))
        }
    }
}

/// The grammar of a rendered net descriptor.
pub open spec fn canonical_net(v: Value) -> bool {
    &&& v is Obj
    &&& v->Obj_0@.len() >= 1
    &&& v->Obj_0@[0].0@ == "type"@
    &&& v->Obj_0@[0].1 is Str
}

/// The grammar of a rendered server descriptor.
pub open spec fn canonical_server(v: Value) -> bool {
    &&& v is Obj
    &&& v->Obj_0@.len() >= 3
    &&& v->Obj_0@[0].0@ == "type"@ && v->Obj_0@[0].1 is Str
    &&& v->Obj_0@[1].0@ == "listen"@ && v->Obj_0@[1].1 is Str
    &&& v->Obj_0@[2].0@ == "net"@ && v->Obj_0@[2].1 is Str
}

/// The grammar of a rendered configuration: an id and two tables with unique
/// keys whose values follow the descriptor grammars.
pub open spec fn canonical_config(v: Value) -> bool {
    &&& v is Obj
    &&& v->Obj_0@.len() == 3
    &&& v->Obj_0@[0].0@ == "id"@ && v->Obj_0@[0].1 is Str
    &&& v->Obj_0@[1].0@ == "net"@ && v->Obj_0@[1].1 is Obj
    &&& v->Obj_0@[2].0@ == "server"@ && v->Obj_0@[2].1 is Obj
    &&& crate::strmap::keys_unique(v->Obj_0@[1].1->Obj_0@)
    &&& crate::strmap::keys_unique(v->Obj_0@[2].1->Obj_0@)
    &&& (forall|i: int|
        0 <= i < v->Obj_0@[1].1->Obj_0@.len() ==> canonical_net(
            (#[trigger] v->Obj_0@[1].1->Obj_0@[i]).1,
        ))
    &&& (forall|i: int|
        0 <= i < v->Obj_0@[2].1->Obj_0@.len() ==> canonical_server(
            (#[trigger] v->Obj_0@[2].1->Obj_0@[i]).1,
        ))
}

/// Renders a net descriptor.
pub fn net_to_value(n: Net) -> (v: Value)
    requires
        n.opt is Obj,
    ensures
        net_shape(n, v),
{
    let Net { net_type, opt } = n;
    let mut fields: Vec<(String, Value)> = Vec::new();
    fields.push(("type".to_owned(), Value::Str(net_type)));
    let mut os = match opt {
        Value::Obj(os) => os,
        _ => Vec::new(),
    };
    let ghost os_all = os@;
    let mut i: usize = 0;
    let total = os.len();
    while os.len() > 0
        invariant
            i + os@.len() == total,
            total == os_all.len(),
            os@ =~= os_all.skip(i as int),
            fields@.len() == i + 1,
            fields@.skip(1) =~= os_all.take(i as int),
            fields@[0] == (fields@[0].0, Value::Str(n.net_type)),
            fields@[0].0@ == "type"@,
        decreases os@.len(),
    {
        let ghost os0 = os@;
        let pair = os.remove(0);
        proof {
            assert(os0[0] == os_all[i as int]);
            assert(os@ =~= os0.skip(1));
            assert(os_all.take(i as int + 1) =~= os_all.take(i as int).push(os_all[i as int]));
        }
        fields.push(pair);
        proof {
            assert(fields@.skip(1) =~= os_all.take(i as int + 1));
        }
        i += 1;
    }
    proof {
        assert(os_all.take(total as int) =~= os_all);
    }
    Value::Obj(fields)
}

/// Renders a server descriptor.
fn server_to_value(s: Server) -> (v: Value)
    requires
        s.opt is Obj,
    ensures
        server_shape(s, v),
{
    let Server { server_type, listen, net, opt } = s;
    let mut fields: Vec<(String, Value)> = Vec::new();
    fields.push(("type".to_owned(), Value::Str(server_type)));
    fields.push(("listen".to_owned(), Value::Str(listen)));
    fields.push(("net".to_owned(), Value::Str(net)));
    let mut os = match opt {
        Value::Obj(os) => os,
        _ => Vec::new(),
    };
    let ghost os_all = os@;
    let mut i: usize = 0;
    let total = os.len();
    while os.len() > 0
        invariant
            i + os@.len() == total,
            total == os_all.len(),
            os@ =~= os_all.skip(i as int),
            fields@.len() == i + 3,
            fields@.skip(3) =~= os_all.take(i as int),
            fields@[0] == (fields@[0].0, Value::Str(s.server_type)),
            fields@[1] == (fields@[1].0, Value::Str(s.listen)),
            fields@[2] == (fields@[2].0, Value::Str(s.net)),
            fields@[0].0@ == "type"@,
            fields@[1].0@ == "listen"@,
            fields@[2].0@ == "net"@,
        decreases os@.len(),
    {
        let ghost os0 = os@;
        let pair = os.remove(0);
        proof {
            assert(os0[0] == os_all[i as int]);
            assert(os@ =~= os0.skip(1));
            assert(os_all.take(i as int + 1) =~= os_all.take(i as int).push(os_all[i as int]));
        }
        fields.push(pair);
        proof {
            assert(fields@.skip(3) =~= os_all.take(i as int + 1));
        }
        i += 1;
    }
    proof {
        assert(os_all.take(total as int) =~= os_all);
    }
    Value::Obj(fields)
}

/// Renders a configuration as a document value. This is the exact inverse of
/// `parse_config`.
pub fn serialize_config(c: Config) -> (v: Value)
    requires
        config_wf(c),
    ensures
        config_shape(c, v),
{
    let ghost orig = c;
    let Config { id, net, server } = c;

    let mut nf: Vec<(String, Value)> = Vec::new();
    let mut nets = net.entries;
    let ghost nets_all = nets@;
    let mut i: usize = 0;
    let ntotal = nets.len();
    while nets.len() > 0
        invariant
            i + nets@.len() == ntotal,
            ntotal == nets_all.len(),
            nets@ =~= nets_all.skip(i as int),
            nf@.len() == i,
            forall|j: int|
                0 <= j < i ==> (#[trigger] nf@[j]).0 == nets_all[j].0 && net_shape(
                    nets_all[j].1,
                    nf@[j].1,
                ),
            forall|j: int| 0 <= j < nets_all.len() ==> (#[trigger] nets_all[j]).1.opt is Obj,
        decreases nets@.len(),
    {
        let ghost nets0 = nets@;
        let (k, n) = nets.remove(0);
        proof {
            assert(nets0[0] == nets_all[i as int]);
            assert(nets@ =~= nets0.skip(1));
        }
        let nv = net_to_value(n);
        nf.push((k, nv));
        i += 1;
    }

    let mut sf: Vec<(String, Value)> = Vec::new();
    let mut servers = server.entries;
    let ghost servers_all = servers@;
    let mut j: usize = 0;
    let stotal = servers.len();
    while servers.len() > 0
        invariant
            j + servers@.len() == stotal,
            stotal == servers_all.len(),
            servers@ =~= servers_all.skip(j as int),
            sf@.len() == j,
            forall|m: int|
                0 <= m < j ==> (#[trigger] sf@[m]).0 == servers_all[m].0 && server_shape(
                    servers_all[m].1,
                    sf@[m].1,
                ),
            forall|m: int| 0 <= m < servers_all.len() ==> (#[trigger] servers_all[m]).1.opt is Obj,
        decreases servers@.len(),
    {
        let ghost servers0 = servers@;
        let (k, srv) = servers.remove(0);
        proof {
            assert(servers0[0] == servers_all[j as int]);
            assert(servers@ =~= servers0.skip(1));
        }
        let sv = server_to_value(srv);
        sf.push((k, sv));
        j += 1;
    }

    let mut fields: Vec<(String, Value)> = Vec::new();
    fields.push(("id".to_owned(), Value::Str(id)));
    fields.push(("net".to_owned(), Value::Obj(nf)));
    fields.push(("server".to_owned(), Value::Obj(sf)));
    Value::Obj(fields)
}

/// Whether the key list already holds `k`.
fn keys_contains<V>(entries: &Vec<(String, V)>, k: &str) -> (r: bool)
    ensures
        r == !crate::strmap::key_absent(entries@, k@),
{
    let mut i: usize = 0;
    while i < entries.len()
        invariant
            0 <= i <= entries@.len(),
            forall|j: int| 0 <= j < i ==> entries@[j].0@ != k@,
        decreases entries@.len() - i,
    {
        if str_eq(entries[i].0.as_str(), k) {
            return true;
        }
        i += 1;
    }
    false
}

/// Reads a net descriptor back from its rendering. Succeeds exactly on
/// values that follow the descriptor grammar.
fn value_to_net(v: Value) -> (r: Result<Net, Error>)
    ensures
        r is Ok <==> canonical_net(v),
        r is Ok ==> net_shape(r->Ok_0, v),
{
    let mut fields = match v {
        Value::Obj(fields) => fields,
        _ => {
            return Err(Error::BadRequest);
        }
    };
    let ghost fs = fields@;
    if fields.len() == 0 {
        return Err(Error::BadRequest);
    }
    let head = fields.remove(0);
    if !str_eq(head.0.as_str(), "type") {
        return Err(Error::BadRequest);
    }
    let t = match head.1 {
        Value::Str(t) => t,
        _ => {
            return Err(Error::BadRequest);
        }
    };
    proof {
        assert(fields@ =~= fs.skip(1));
    }
    Ok(Net { net_type: t, opt: Value::Obj(fields) })
}

/// Reads a server descriptor back from its rendering. Succeeds exactly on
/// values that follow the descriptor grammar.
fn value_to_server(v: Value) -> (r: Result<Server, Error>)
    ensures
        r is Ok <==> canonical_server(v),
        r is Ok ==> server_shape(r->Ok_0, v),
{
    let mut fields = match v {
        Value::Obj(fields) => fields,
        _ => {
            return Err(Error::BadRequest);
        }
    };
    let ghost fs = fields@;
    if fields.len() < 3 {
        return Err(Error::BadRequest);
    }
    let f0 = fields.remove(0);
    let f1 = fields.remove(0);
    let f2 = fields.remove(0);
    proof {
        assert(fields@ =~= fs.skip(3));
        assert(f1 == fs[1]);
        assert(f2 == fs[2]);
    }
    if !str_eq(f0.0.as_str(), "type") || !str_eq(f1.0.as_str(), "listen") || !str_eq(
        f2.0.as_str(),
        "net",
    ) {
        return Err(Error::BadRequest);
    }
    let t = match f0.1 {
        Value::Str(t) => t,
        _ => {
            return Err(Error::BadRequest);
        }
    };
    let listen = match f1.1 {
        Value::Str(s) => s,
        _ => {
            return Err(Error::BadRequest);
        }
    };
    let netname = match f2.1 {
        Value::Str(s) => s,
        _ => {
            return Err(Error::BadRequest);
        }
    };
    Ok(Server { server_type: t, listen, net: netname, opt: Value::Obj(fields) })
}

/// Reads a configuration back from a document value. Succeeds exactly on
/// values that follow the configuration grammar; anything else is a
/// `BadRequest`. This is the exact inverse of `serialize_config`.
pub fn parse_config(v: Value) -> (r: Result<Config, Error>)
    ensures
        r is Ok <==> canonical_config(v),
        r is Ok ==> config_shape(r->Ok_0, v) && config_wf(r->Ok_0),
        r is Err ==> r->Err_0 == Error::BadRequest,
{
    let mut fields = match v {
        Value::Obj(fields) => fields,
        _ => {
            return Err(Error::BadRequest);
        }
    };
    let ghost fs = fields@;
    if fields.len() != 3 {
        return Err(Error::BadRequest);
    }
    let f0 = fields.remove(0);
    let f1 = fields.remove(0);
    let f2 = fields.remove(0);
    proof {
        assert(f1 == fs[1]);
        assert(f2 == fs[2]);
    }
    if !str_eq(f0.0.as_str(), "id") || !str_eq(f1.0.as_str(), "net") || !str_eq(
        f2.0.as_str(),
        "server",
    ) {
        return Err(Error::BadRequest);
    }
    let id = match f0.1 {
        Value::Str(s) => s,
        _ => {
            return Err(Error::BadRequest);
        }
    };
    let mut nentries = match f1.1 {
        Value::Obj(es) => es,
        _ => {
            return Err(Error::BadRequest);
        }
    };
    let mut sentries = match f2.1 {
        Value::Obj(es) => es,
        _ => {
            return Err(Error::BadRequest);
        }
    };

    let ghost nf = nentries@;
    let ghost sfv = sentries@;
    proof {
        assert(fields@ =~= Seq::<(String, Value)>::empty());
    }
    let ghost doc = {
        &&& v is Obj
        &&& fs == v->Obj_0@
        &&& fs.len() == 3
        &&& fs[0].0@ == "id"@ && fs[0].1 == Value::Str(id)
        &&& fs[1].0@ == "net"@ && fs[1].1 is Obj && nf == fs[1].1->Obj_0@
        &&& fs[2].0@ == "server"@ && fs[2].1 is Obj && sfv == fs[2].1->Obj_0@
    };
    proof {
        assert(doc);
    }
    let mut nets: Vec<(String, Net)> = Vec::new();
    let mut i: usize = 0;
    let ntotal = nentries.len();
    while nentries.len() > 0
        invariant
            doc == ({
                &&& v is Obj
                &&& fs == v->Obj_0@
                &&& fs.len() == 3
                &&& fs[0].0@ == "id"@ && fs[0].1 == Value::Str(id)
                &&& fs[1].0@ == "net"@ && fs[1].1 is Obj && nf == fs[1].1->Obj_0@
                &&& fs[2].0@ == "server"@ && fs[2].1 is Obj && sfv == fs[2].1->Obj_0@
            }),
            doc,
            i + nentries@.len() == ntotal,
            ntotal == nf.len(),
            nentries@ =~= nf.skip(i as int),
            nets@.len() == i,
            crate::strmap::keys_unique(nets@),
            forall|j: int|
                0 <= j < i ==> (#[trigger] nets@[j]).0 == nf[j].0 && net_shape(
                    nets@[j].1,
                    nf[j].1,
                ) && nets@[j].1.opt is Obj && canonical_net(nf[j].1),
        decreases nentries@.len(),
    {
        let ghost n0 = nentries@;
        let (k, nv) = nentries.remove(0);
        proof {
            assert(n0[0] == nf[i as int]);
            assert(nentries@ =~= n0.skip(1));
        }
        if keys_contains(&nets, k.as_str()) {
            proof {
                let j = choose|j: int| 0 <= j < nets@.len() && !(nets@[j].0@ != k@);
                assert(nf[j].0@ == nf[i as int].0@);
                assert(!crate::strmap::keys_unique(nf));
                assert(!canonical_config(v));
            }
            return Err(Error::BadRequest);
        }
        let n = match value_to_net(nv) {
            Ok(n) => n,
            Err(e) => {
                proof {
                    assert(!canonical_net(nf[i as int].1));
                    assert(!canonical_config(v));
                }
                return Err(Error::BadRequest);
            }
        };
        nets.push((k, n));
        i += 1;
    }

    let mut servers: Vec<(String, Server)> = Vec::new();
    let mut j: usize = 0;
    let stotal = sentries.len();
    while sentries.len() > 0
        invariant
            doc == ({
                &&& v is Obj
                &&& fs == v->Obj_0@
                &&& fs.len() == 3
                &&& fs[0].0@ == "id"@ && fs[0].1 == Value::Str(id)
                &&& fs[1].0@ == "net"@ && fs[1].1 is Obj && nf == fs[1].1->Obj_0@
                &&& fs[2].0@ == "server"@ && fs[2].1 is Obj && sfv == fs[2].1->Obj_0@
            }),
            doc,
            j + sentries@.len() == stotal,
            stotal == sfv.len(),
            sentries@ =~= sfv.skip(j as int),
            servers@.len() == j,
            crate::strmap::keys_unique(servers@),
            nets@.len() == nf.len(),
            crate::strmap::keys_unique(nets@),
            forall|m: int|
                0 <= m < nf.len() ==> (#[trigger] nets@[m]).0 == nf[m].0 && net_shape(
                    nets@[m].1,
                    nf[m].1,
                ) && nets@[m].1.opt is Obj && canonical_net(nf[m].1),
            forall|m: int|
                0 <= m < j ==> (#[trigger] servers@[m]).0 == sfv[m].0 && server_shape(
                    servers@[m].1,
                    sfv[m].1,
                ) && servers@[m].1.opt is Obj && canonical_server(sfv[m].1),
        decreases sentries@.len(),
    {
        let ghost s0 = sentries@;
        let (k, sv) = sentries.remove(0);
        proof {
            assert(s0[0] == sfv[j as int]);
            assert(sentries@ =~= s0.skip(1));
        }
        if keys_contains(&servers, k.as_str()) {
            proof {
                let m = choose|m: int| 0 <= m < servers@.len() && !(servers@[m].0@ != k@);
                assert(sfv[m].0@ == sfv[j as int].0@);
                assert(!crate::strmap::keys_unique(sfv));
                assert(!canonical_config(v));
            }
            return Err(Error::BadRequest);
        }
        let srv = match value_to_server(sv) {
            Ok(srv) => srv,
            Err(e) => {
                proof {
                    assert(!canonical_server(sfv[j as int].1));
                    assert(!canonical_config(v));
                }
                return Err(Error::BadRequest);
            }
        };
        servers.push((k, srv));
        j += 1;
    }

    proof {
        assert forall|a: int, b: int| 0 <= a < b < nf.len() implies nf[a].0@ != nf[b].0@ by {
            assert(nets@[a].0 == nf[a].0);
            assert(nets@[b].0 == nf[b].0);
        }
        assert forall|a: int, b: int| 0 <= a < b < sfv.len() implies sfv[a].0@ != sfv[b].0@ by {
            assert(servers@[a].0 == sfv[a].0);
            assert(servers@[b].0 == sfv[b].0);
        }
        assert(v is Obj && v->Obj_0@ == fs);
        assert(fs.len() == 3);
        assert(fs[0].0@ == "id"@ && fs[0].1 is Str);
        assert(fs[1].0@ == "net"@ && fs[1].1 is Obj);
        assert(fs[2].0@ == "server"@ && fs[2].1 is Obj);
        assert(crate::strmap::keys_unique(nf));
        assert(crate::strmap::keys_unique(sfv));
        assert forall|i2: int| 0 <= i2 < nf.len() implies canonical_net((#[trigger] nf[i2]).1) by {
            assert(nets@[i2].0 == nf[i2].0);
        }
        assert forall|i2: int|
            0 <= i2 < sfv.len() implies canonical_server((#[trigger] sfv[i2]).1) by {
            assert(servers@[i2].0 == sfv[i2].0);
        }
        assert(canonical_config(v));
    }
    Ok(Config { id, net: StrMap { entries: nets }, server: StrMap { entries: servers } })
}

/// The round trip: rendering a well-formed configuration and reading the
/// rendering back yields the same configuration. Stated over the relations
/// that `serialize_config` and `parse_config` establish: any configuration
/// read back from the rendering of `c` carries exactly `c`'s information.
pub proof fn lemma_config_round_trip(c: Config, v: Value, c2: Config)
    requires
        config_wf(c),
        config_shape(c, v),
        config_shape(c2, v),
    ensures
        config_eq(c, c2),
{
    let nf = v->Obj_0@[1].1->Obj_0@;
    let sf = v->Obj_0@[2].1->Obj_0@;
    assert forall|i: int| 0 <= i < c.net.entries@.len() implies (#[trigger] c.net.entries@[i]).0@
        == c2.net.entries@[i].0@ && net_eq(c.net.entries@[i].1, c2.net.entries@[i].1) by {
        assert(nf[i].0 == c.net.entries@[i].0);
        assert(nf[i].0 == c2.net.entries@[i].0);
        let n1 = c.net.entries@[i].1;
        let n2 = c2.net.entries@[i].1;
        let w = nf[i].1;
        assert(w->Obj_0@.skip(1) =~= n1.opt->Obj_0@);
        assert(w->Obj_0@.skip(1) =~= n2.opt->Obj_0@);
        assert(n1.opt->Obj_0@ =~= n2.opt->Obj_0@);
        assert forall|m: int| 0 <= m < n1.opt->Obj_0@.len() implies (#[trigger] n1.opt->Obj_0@[m]).0@
            == n2.opt->Obj_0@[m].0@ && value_eq(n1.opt->Obj_0@[m].1, n2.opt->Obj_0@[m].1) by {
            assert(n1.opt->Obj_0@[m] == n2.opt->Obj_0@[m]);
            crate::json::lemma_value_eq_refl(n1.opt->Obj_0@[m].1);
        }
        assert(value_eq(n1.opt, n2.opt));
        assert(Value::Str(n1.net_type) == Value::Str(n2.net_type));
        assert(n1.net_type == n2.net_type);
    }
    assert forall|i: int|
        0 <= i < c.server.entries@.len() implies (#[trigger] c.server.entries@[i]).0@
        == c2.server.entries@[i].0@ && server_eq(
        c.server.entries@[i].1,
        c2.server.entries@[i].1,
    ) by {
        assert(sf[i].0 == c.server.entries@[i].0);
        assert(sf[i].0 == c2.server.entries@[i].0);
        let s1 = c.server.entries@[i].1;
        let s2 = c2.server.entries@[i].1;
        let w = sf[i].1;
        assert(w->Obj_0@.skip(3) =~= s1.opt->Obj_0@);
        assert(w->Obj_0@.skip(3) =~= s2.opt->Obj_0@);
        assert(s1.opt->Obj_0@ =~= s2.opt->Obj_0@);
        assert forall|m: int| 0 <= m < s1.opt->Obj_0@.len() implies (#[trigger] s1.opt->Obj_0@[m]).0@
            == s2.opt->Obj_0@[m].0@ && value_eq(s1.opt->Obj_0@[m].1, s2.opt->Obj_0@[m].1) by {
            assert(s1.opt->Obj_0@[m] == s2.opt->Obj_0@[m]);
            crate::json::lemma_value_eq_refl(s1.opt->Obj_0@[m].1);
        }
        assert(value_eq(s1.opt, s2.opt));
    }
    assert(Value::Str(c.id) == Value::Str(c2.id));
}

/// The rendering of a well-formed configuration follows the configuration
/// grammar, so reading it back is owed to succeed.
pub proof fn lemma_serialized_is_canonical(c: Config, v: Value)
    requires
        config_wf(c),
        config_shape(c, v),
    ensures
        canonical_config(v),
{
    let nf = v->Obj_0@[1].1->Obj_0@;
    let sf = v->Obj_0@[2].1->Obj_0@;
    assert forall|i: int, j: int| 0 <= i < j < nf.len() implies nf[i].0@ != nf[j].0@ by {
        assert(nf[i].0 == c.net.entries@[i].0);
        assert(nf[j].0 == c.net.entries@[j].0);
    }
    assert forall|i: int, j: int| 0 <= i < j < sf.len() implies sf[i].0@ != sf[j].0@ by {
        assert(sf[i].0 == c.server.entries@[i].0);
        assert(sf[j].0 == c.server.entries@[j].0);
    }
    assert forall|i: int| 0 <= i < nf.len() implies canonical_net((#[trigger] nf[i]).1) by {
        assert(net_shape(c.net.entries@[i].1, nf[i].1));
    }
    assert forall|i: int| 0 <= i < sf.len() implies canonical_server((#[trigger] sf[i]).1) by {
        assert(server_shape(c.server.entries@[i].1, sf[i].1));
    }
}

} // verus!
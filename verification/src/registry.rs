//! The registry: net, server and importer types by name, each belonging to a
//! plugin, and the resolution of net references.

use vstd::prelude::*;

use crate::config::{Config, Net};
use crate::json::Value;
use crate::strmap::StrMap;
use crate::Error;

verus! {

/// A registered net type.
#[derive(Debug, Clone, PartialEq)]
pub struct NetItem {
    pub plugin_name: String,
}

/// A registered server type.
#[derive(Debug, Clone, PartialEq)]
pub struct ServerItem {
    pub plugin_name: String,
}

/// Net and server types by name.
#[derive(Debug, Clone, PartialEq)]
pub struct Registry {
    pub net: StrMap<NetItem>,
    pub server: StrMap<ServerItem>,
}

impl Registry {
    /// Both tables are keyed uniquely.
    pub open spec fn wf(&self) -> bool {
        self.net.wf() && self.server.wf()
    }

    /// An empty registry.
    pub fn new() -> (r: Registry)
        ensures
            r.wf(),
            r.net.entries@.len() == 0,
            r.server.entries@.len() == 0,
    {
        Registry { net: StrMap::new(), server: StrMap::new() }
    }

    /// A registry with the built-in types loaded.
    pub fn new_with_builtin() -> (r: Result<Registry, Error>)
        ensures
            r is Ok,
            r->Ok_0.wf(),
            r->Ok_0.net.spec_contains("local"@),
            r->Ok_0.net.spec_contains("noop"@),
            r->Ok_0.net.spec_contains("blackhole"@),
            r->Ok_0.net.spec_contains("alias"@),
            r->Ok_0.net.spec_contains("select"@),
            r->Ok_0.net.spec_contains("rule"@),
            r->Ok_0.net.spec_contains("http"@),
            r->Ok_0.server.spec_contains("http"@),
    {
        let mut reg = Registry::new();
        match reg.load_builtin() {
            Ok(_) => Ok(reg),
            Err(e) => Err(e),
        }
    }

    /// Loads the built-in net and server types under the `std` plugin.
    pub fn load_builtin(&mut self) -> (r: Result<(), Error>)
        requires
            old(self).wf(),
        ensures
            r is Ok,
            final (self).wf(),
            final (self).net.spec_contains("local"@),
            final (self).net.spec_contains("noop"@),
            final (self).net.spec_contains("blackhole"@),
            final (self).net.spec_contains("alias"@),
            final (self).net.spec_contains("select"@),
            final (self).net.spec_contains("rule"@),
            final (self).net.spec_contains("http"@),
            final (self).server.spec_contains("http"@),
    {
        self.net.insert("local".to_owned(), NetItem { plugin_name: "std".to_owned() });
        self.net.insert("noop".to_owned(), NetItem { plugin_name: "std".to_owned() });
        self.net.insert("blackhole".to_owned(), NetItem { plugin_name: "std".to_owned() });
        self.net.insert("alias".to_owned(), NetItem { plugin_name: "std".to_owned() });
        self.net.insert("select".to_owned(), NetItem { plugin_name: "std".to_owned() });
        self.net.insert("rule".to_owned(), NetItem { plugin_name: "std".to_owned() });
        self.net.insert("dns".to_owned(), NetItem { plugin_name: "std".to_owned() });
        self.net.insert("http".to_owned(), NetItem { plugin_name: "std".to_owned() });
        self.server.insert("http".to_owned(), ServerItem { plugin_name: "std".to_owned() });
        self.server.insert("forward".to_owned(), ServerItem { plugin_name: "std".to_owned() });
        Ok(())
    }

    /// Registers a plugin's net and server types under its name.
    pub fn init_with_registry(
        &mut self,
        plugin_name: &str,
        net_types: Vec<String>,
        server_types: Vec<String>,
    ) -> (r: Result<(), Error>)
        requires
            old(self).wf(),
        ensures
            r is Ok,
            final (self).wf(),
            forall|i: int|
                0 <= i < net_types@.len() ==> (final (self).net.spec_get(
                    (#[trigger] net_types@[i])@,
                ) matches Some(item) && item.plugin_name@ == plugin_name@),
            forall|i: int|
                0 <= i < server_types@.len() ==> (final (self).server.spec_get(
                    (#[trigger] server_types@[i])@,
                ) matches Some(item) && item.plugin_name@ == plugin_name@),
    {
        let ghost nt = net_types@;
        let mut nets = net_types;
        let mut i: usize = 0;
        let ntotal = nets.len();
        while nets.len() > 0
            invariant
                self.wf(),
                i + nets@.len() == ntotal,
                ntotal == nt.len(),
                nets@ =~= nt.skip(i as int),
                self.server == old(self).server,
                forall|j: int|
                    0 <= j < i ==> (self.net.spec_get((#[trigger] nt[j])@) matches Some(item)
                        && item.plugin_name@ == plugin_name@),
            decreases nets@.len(),
        {
            let ghost rest0 = nets@;
            let t = nets.remove(0);
            proof {
                assert(rest0[0] == nt[i as int]);
                assert(nets@ =~= rest0.skip(1));
            }
            self.net.insert(t, NetItem { plugin_name: plugin_name.to_owned() });
            i += 1;
        }
        let ghost st = server_types@;
        let mut servers = server_types;
        let mut j: usize = 0;
        let stotal = servers.len();
        while servers.len() > 0
            invariant
                self.wf(),
                j + servers@.len() == stotal,
                stotal == st.len(),
                servers@ =~= st.skip(j as int),
                forall|m: int|
                    0 <= m < nt.len() ==> (self.net.spec_get((#[trigger] nt[m])@) matches Some(
                        item,
                    ) && item.plugin_name@ == plugin_name@),
                forall|m: int|
                    0 <= m < j ==> (self.server.spec_get((#[trigger] st[m])@) matches Some(item)
                        && item.plugin_name@ == plugin_name@),
            decreases servers@.len(),
        {
            let ghost rest0 = servers@;
            let t = servers.remove(0);
            proof {
                assert(rest0[0] == st[j as int]);
                assert(servers@ =~= rest0.skip(1));
            }
            self.server.insert(t, ServerItem { plugin_name: plugin_name.to_owned() });
            j += 1;
        }
        Ok(())
    }

    /// The net table.
    pub fn net(&self) -> (r: &StrMap<NetItem>)
        ensures
            r == self.net,
    {
        &self.net
    }

    /// The server table.
    pub fn server(&self) -> (r: &StrMap<ServerItem>)
        ensures
            r == self.server,
    {
        &self.server
    }

    /// Looks a net type up; an unregistered type is not found.
    pub fn get_net(&self, net_type: &str) -> (r: Result<&NetItem, Error>)
        ensures
            match r {
                Ok(item) => self.net.spec_get(net_type@) == Some(*item),
                Err(e) => self.net.spec_get(net_type@) is None && e == Error::NotFound,
            },
    {
        match self.net.get(net_type) {
            Some(item) => Ok(item),
            None => Err(Error::NotFound),
        }
    }

    /// Looks a server type up; an unregistered type is not found.
    pub fn get_server(&self, server_type: &str) -> (r: Result<&ServerItem, Error>)
        ensures
            match r {
                Ok(item) => self.server.spec_get(server_type@) == Some(*item),
                Err(e) => self.server.spec_get(server_type@) is None && e == Error::NotFound,
            },
    {
        match self.server.get(server_type) {
            Some(item) => Ok(item),
            None => Err(Error::NotFound),
        }
    }
}

/// Resolves a descriptor's net references through the running graph's handle
/// table, as the getter handed to a factory does: every reference resolves to
/// its handle, or the first missing id fails the build.
pub fn resolve_refs(refs: &Vec<String>, nets: &StrMap<u64>) -> (r: Result<Vec<u64>, Error>)
    ensures
        match r {
            Ok(handles) => handles@.len() == refs@.len() && (forall|i: int|
                0 <= i < refs@.len() ==> nets.spec_get((#[trigger] refs@[i])@) == Some(
                    handles@[i],
                )),
            Err(e) => (exists|i: int|
                0 <= i < refs@.len() && nets.spec_get((#[trigger] refs@[i])@) is None) && (
            e matches Error::UnresolvedNet(id) && (exists|i: int|
                0 <= i < refs@.len() && (#[trigger] refs@[i])@ == id@ && nets.spec_get(
                    refs@[i]@,
                ) is None)),
        },
{
    let mut out: Vec<u64> = Vec::new();
    let mut i: usize = 0;
    while i < refs.len()
        invariant
            0 <= i <= refs@.len(),
            out@.len() == i,
            forall|j: int|
                0 <= j < i ==> nets.spec_get((#[trigger] refs@[j])@) == Some(out@[j]),
        decreases refs@.len() - i,
    {
        match nets.get(refs[i].as_str()) {
            Some(h) => {
                out.push(*h);
            }
            None => {
                return Err(Error::UnresolvedNet(refs[i].clone()));
            }
        }
        i += 1;
    }
    Ok(out)
}

/// The built-in leaf nets that exist without construction.
pub open spec fn spec_builtin_leaf(id: Seq<char>) -> bool {
    id == "local"@ || id == "noop"@ || id == "blackhole"@
}

/// Whether an id names a built-in leaf net.
pub fn is_builtin_leaf(id: &str) -> (r: bool)
    ensures
        r == spec_builtin_leaf(id@),
{
    crate::strutil::str_eq(id, "local") || crate::strutil::str_eq(id, "noop")
        || crate::strutil::str_eq(id, "blackhole")
}

/// The net ids a descriptor references: the `net` field that chains a
/// transport, and, for a selector, the selection and every list member.
pub open spec fn spec_refs(d: Net) -> Seq<Seq<char>> {
    if d.opt is Obj {
        let fields = d.opt->Obj_0@;
        let chained: Seq<Seq<char>> = match crate::json::spec_obj_get(fields, "net"@) {
            Some(Value::Str(s)) => seq![s@],
            _ => Seq::empty(),
        };
        let selected: Seq<Seq<char>> = match crate::json::spec_obj_get(fields, "selected"@) {
            Some(Value::Str(s)) => seq![s@],
            _ => Seq::empty(),
        };
        let listed: Seq<Seq<char>> = match crate::json::spec_obj_get(fields, "list"@) {
            Some(Value::Arr(items)) => str_items(items@),
            _ => Seq::empty(),
        };
        chained + selected + listed
    } else {
        Seq::empty()
    }
}

/// The strings among a list's items, in order.
pub open spec fn str_items(items: Seq<Value>) -> Seq<Seq<char>>
    decreases items.len(),
{
    if items.len() == 0 {
        Seq::empty()
    } else {
        let rest = str_items(items.skip(1));
        match items[0] {
            Value::Str(s) => seq![s@] + rest,
            _ => rest,
        }
    }
}

/// Extracts the net ids a descriptor references.
pub fn referenced_nets(d: &Net) -> (r: Vec<String>)
    ensures
        r@.map_values(|s: String| s@) =~= spec_refs(*d),
{
    let mut out: Vec<String> = Vec::new();
    let fields = match &d.opt {
        Value::Obj(fields) => fields,
        _ => {
            return out;
        }
    };
    match crate::json::obj_get(fields, "net") {
        Some(Value::Str(s)) => {
            out.push(s.clone());
        }
        _ => {}
    }
    match crate::json::obj_get(fields, "selected") {
        Some(Value::Str(s)) => {
            out.push(s.clone());
        }
        _ => {}
    }
    match crate::json::obj_get(fields, "list") {
        Some(Value::Arr(items)) => {
            let ghost base = out@.map_values(|s: String| s@);
            let mut i: usize = 0;
            proof {
                assert(items@.skip(0) =~= items@);
                assert(base + str_items(items@.skip(0)) =~= base + str_items(items@));
            }
            while i < items.len()
                invariant
                    0 <= i <= items@.len(),
                    out@.map_values(|s: String| s@) + str_items(items@.skip(i as int)) =~= base
                        + str_items(items@),
                decreases items@.len() - i,
            {
                proof {
                    assert(items@.skip(i as int)[0] == items@[i as int]);
                    assert(items@.skip(i as int).skip(1) =~= items@.skip(i as int + 1));
                }
                match &items[i] {
                    Value::Str(s) => {
                        let ghost before = out@.map_values(|s2: String| s2@);
                        out.push(s.clone());
                        proof {
                            assert(out@.map_values(|s2: String| s2@) =~= before.push(s@));
                            assert(before.push(s@) + str_items(items@.skip(i as int + 1)) =~= before
                                + str_items(items@.skip(i as int)));
                        }
                    }
                    _ => {}
                }
                i += 1;
            }
            proof {
                assert(str_items(items@.skip(items@.len() as int)) =~= Seq::<Seq<char>>::empty());
                assert(out@.map_values(|s: String| s@) =~= base + str_items(items@));
            }
        }
        _ => {}
    }
    out
}

/// A valid construction order for a net table: every table id exactly once,
/// and every reference either a built-in leaf or an id built earlier, so
/// building in this order resolves every reference.
pub open spec fn spec_valid_order(nets: StrMap<Net>, order: Seq<String>) -> bool {
    &&& order.len() == nets.entries@.len()
    &&& (forall|i: int| 0 <= i < order.len() ==> nets.spec_contains((#[trigger] order[i])@))
    &&& (forall|i: int, j: int| 0 <= i < j < order.len() ==> order[i]@ != order[j]@)
    &&& (forall|i: int, m: int|
        0 <= i < order.len() && 0 <= m < spec_refs(nets.spec_get(order[i]@)->0).len()
            ==> spec_builtin_leaf(#[trigger] spec_refs(nets.spec_get(order[i]@)->0)[m]) || (
        exists|j: int| 0 <= j < i && (#[trigger] order[j])@ == spec_refs(
            nets.spec_get(order[i]@)->0,
        )[m]))
}

/// Decides whether a proposed construction order is valid for the table: a
/// configuration whose nets admit no such order holds a reference cycle.
pub fn validate_build_order(nets: &StrMap<Net>, order: &Vec<String>) -> (r: bool)
    ensures
        r == spec_valid_order(*nets, order@),
{
    if order.len() != nets.len() {
        return false;
    }
    let mut i: usize = 0;
    while i < order.len()
        invariant
            0 <= i <= order@.len(),
            order@.len() == nets.entries@.len(),
            forall|j: int| 0 <= j < i ==> nets.spec_contains((#[trigger] order@[j])@),
            forall|a: int, b: int| 0 <= a < b < i ==> order@[a]@ != order@[b]@,
            forall|a: int, m: int|
                0 <= a < i && 0 <= m < spec_refs(nets.spec_get(order@[a]@)->0).len()
                    ==> spec_builtin_leaf(#[trigger] spec_refs(nets.spec_get(order@[a]@)->0)[m])
                    || (exists|j: int|
                    0 <= j < a && (#[trigger] order@[j])@ == spec_refs(
                        nets.spec_get(order@[a]@)->0,
                    )[m]),
        decreases order@.len() - i,
    {
        let d = match nets.get(order[i].as_str()) {
            Some(d) => d,
            None => {
                return false;
            }
        };
        // the id may not repeat
        let mut a: usize = 0;
        while a < i
            invariant
                0 <= a <= i < order@.len(),
                forall|b: int| 0 <= b < a ==> order@[b]@ != order@[i as int]@,
            decreases i - a,
        {
            if crate::strutil::str_eq(order[a].as_str(), order[i].as_str()) {
                proof {
                    assert(order@[a as int]@ == order@[i as int]@);
                    assert(!spec_valid_order(*nets, order@));
                }
                return false;
            }
            a += 1;
        }
        // every reference must be a leaf or already built
        let refs = referenced_nets(d);
        let ghost refs_view = spec_refs(*d);
        let mut m: usize = 0;
        while m < refs.len()
            invariant
                0 <= m <= refs@.len(),
                refs@.map_values(|s: String| s@) =~= refs_view,
                refs_view == spec_refs(*d),
                i < order@.len(),
                nets.spec_get(order@[i as int]@) == Some(*d),
                forall|n: int|
                    0 <= n < m ==> spec_builtin_leaf(#[trigger] refs_view[n]) || (exists|j: int|
                        0 <= j < i && (#[trigger] order@[j])@ == refs_view[n]),
            decreases refs@.len() - m,
        {
            proof {
                assert(refs_view[m as int] == refs@.map_values(|s: String| s@)[m as int]);
            }
            if !is_builtin_leaf(refs[m].as_str()) {
                let mut j: usize = 0;
                let mut found = false;
                while j < i
                    invariant
                        0 <= j <= i < order@.len(),
                        m < refs@.len(),
                        refs@.map_values(|s: String| s@) =~= refs_view,
                        refs@[m as int]@ == refs_view[m as int],
                        nets.spec_get(order@[i as int]@) == Some(*d),
                        !spec_builtin_leaf(refs_view[m as int]),
                        found ==> exists|b: int|
                            0 <= b < i && (#[trigger] order@[b])@ == refs_view[m as int],
                        !found ==> forall|b: int|
                            0 <= b < j ==> (#[trigger] order@[b])@ != refs_view[m as int],
                    decreases i - j,
                {
                    if crate::strutil::str_eq(order[j].as_str(), refs[m].as_str()) {
                        found = true;
                    }
                    j += 1;
                }
                if !found {
                    proof {
                        if spec_valid_order(*nets, order@) {
                            assert(spec_builtin_leaf(
                                spec_refs(nets.spec_get(order@[i as int]@)->0)[m as int],
                            ) || (exists|b: int|
                                0 <= b < i && (#[trigger] order@[b])@ == spec_refs(
                                    nets.spec_get(order@[i as int]@)->0,
                                )[m as int]));
                            let b = choose|b: int|
                                0 <= b < i && (#[trigger] order@[b])@ == spec_refs(
                                    nets.spec_get(order@[i as int]@)->0,
                                )[m as int];
                            assert(order@[b]@ != refs_view[m as int]);
                            assert(false);
                        }
                    }
                    return false;
                }
            }
            m += 1;
        }
        i += 1;
    }
    true
}

/// Every reference of every net resolves: each one is a built-in leaf or an
/// id of the table.
pub open spec fn spec_refs_resolvable(nets: StrMap<Net>) -> bool {
    forall|i: int, m: int|
        0 <= i < nets.entries@.len() && 0 <= m < spec_refs(nets.entries@[i].1).len()
            ==> spec_builtin_leaf(#[trigger] spec_refs(nets.entries@[i].1)[m])
            || nets.spec_contains(spec_refs(nets.entries@[i].1)[m])
}

/// Whether the list holds a string with these characters.
fn list_contains_str(v: &Vec<String>, s: &str) -> (r: bool)
    ensures
        r == exists|j: int| 0 <= j < v@.len() && (#[trigger] v@[j])@ == s@,
{
    let mut j: usize = 0;
    while j < v.len()
        invariant
            0 <= j <= v@.len(),
            forall|m: int| 0 <= m < j ==> (#[trigger] v@[m])@ != s@,
        decreases v@.len() - j,
    {
        if crate::strutil::str_eq(v[j].as_str(), s) {
            return true;
        }
        j += 1;
    }
    false
}

/// Computes a construction order: leaves first, every reference before its
/// holder. A reference to an id that is neither a built-in leaf nor in the
/// table fails as unresolved; a table whose remaining nets all wait on one
/// another holds a reference cycle and admits no order.
pub fn build_order(nets: &StrMap<Net>) -> (r: Result<Vec<String>, Error>)
    requires
        nets.wf(),
    ensures
        r matches Ok(order) ==> spec_valid_order(*nets, order@),
        r matches Err(e) ==> (e matches Error::UnresolvedNet(_) || e == Error::CycleDetected),
        match r {
            Err(Error::UnresolvedNet(id)) => !spec_builtin_leaf(id@) && !nets.spec_contains(id@)
                && (exists|i: int|
                0 <= i < nets.entries@.len() && spec_refs(
                    (#[trigger] nets.entries@[i]).1,
                ).contains(id@)),
            _ => true,
        },
        r == Err::<Vec<String>, Error>(Error::CycleDetected) ==> spec_refs_resolvable(*nets),
{
    // every reference must be a leaf or a table id
    let mut i: usize = 0;
    while i < nets.entries.len()
        invariant
            0 <= i <= nets.entries@.len(),
            forall|a: int, m: int|
                0 <= a < i && 0 <= m < spec_refs(nets.entries@[a].1).len() ==> spec_builtin_leaf(
                    #[trigger] spec_refs(nets.entries@[a].1)[m],
                ) || nets.spec_contains(spec_refs(nets.entries@[a].1)[m]),
        decreases nets.entries@.len() - i,
    {
        let refs = referenced_nets(&nets.entries[i].1);
        let ghost refs_view = spec_refs(nets.entries@[i as int].1);
        let mut m: usize = 0;
        while m < refs.len()
            invariant
                0 <= m <= refs@.len(),
                i < nets.entries@.len(),
                refs@.map_values(|x: String| x@) =~= refs_view,
                refs_view == spec_refs(nets.entries@[i as int].1),
                forall|n: int|
                    0 <= n < m ==> spec_builtin_leaf(#[trigger] refs_view[n])
                        || nets.spec_contains(refs_view[n]),
            decreases refs@.len() - m,
        {
            proof {
                assert(refs_view[m as int] == refs@.map_values(|x: String| x@)[m as int]);
            }
            if !is_builtin_leaf(refs[m].as_str()) && !nets.contains_key(refs[m].as_str()) {
                proof {
                    assert(refs_view.contains(refs_view[m as int]));
                }
                return Err(Error::UnresolvedNet(refs[m].clone()));
            }
            m += 1;
        }
        i += 1;
    }
    // take, repeatedly, a net whose references are all leaves or already
    // ordered
    proof {
        assert(spec_refs_resolvable(*nets));
    }
    let total = nets.entries.len();
    let mut order: Vec<String> = Vec::new();
    loop
        invariant
            nets.wf(),
            spec_refs_resolvable(*nets),
            total == nets.entries@.len(),
            order@.len() <= total,
        decreases total - order@.len(),
    {
        if order.len() >= total {
            break ;
        }
        let ghost len0 = order@.len();
        let mut progressed = false;
        let mut a: usize = 0;
        while a < nets.entries.len() && !progressed
            invariant
                0 <= a <= nets.entries@.len(),
                total == nets.entries@.len(),
                order@.len() == if progressed {
                    len0 + 1
                } else {
                    len0
                },
                len0 < total,
            decreases nets.entries@.len() - a,
        {
            if !list_contains_str(&order, nets.entries[a].0.as_str()) && order.len() < total {
                let refs = referenced_nets(&nets.entries[a].1);
                let mut all_ready = true;
                let mut m: usize = 0;
                while m < refs.len() && all_ready
                    invariant
                        0 <= m <= refs@.len(),
                    decreases refs@.len() - m,
                {
                    if !is_builtin_leaf(refs[m].as_str()) && !list_contains_str(
                        &order,
                        refs[m].as_str(),
                    ) {
                        all_ready = false;
                    }
                    m += 1;
                }
                if all_ready {
                    order.push(nets.entries[a].0.clone());
                    progressed = true;
                }
            }
            a += 1;
        }
        if !progressed {
            return Err(Error::CycleDetected);
        }
    }
    // the order construction is checked against the ordering property
    if validate_build_order(nets, &order) {
        Ok(order)
    } else {
        Err(Error::CycleDetected)
    }
}

/// The options type of builders that take none.
#[derive(Debug, PartialEq)]
pub struct EmptyConfig {
    pub value: Value,
}

impl Default for EmptyConfig {
    /// The default options: an empty document value.
    fn default() -> (r: Self)
        ensures
            r.value == Value::Null,
    {
        EmptyConfig { value: Value::Null }
    }
}

/// The net that supports no capability.
#[derive(Debug, Clone, PartialEq)]
pub struct NotImplementedNet {}

/// The builder of the `noop` net.
#[derive(Debug, Clone, PartialEq)]
pub struct NoopNet {}

impl NoopNet {
    /// Builds the `noop` net: always succeeds, with no capabilities.
    pub fn build(_config: EmptyConfig) -> (r: Result<NotImplementedNet, Error>)
        ensures
            r == Ok::<NotImplementedNet, Error>(NotImplementedNet {  }),
    {
        Ok(NotImplementedNet {  })
    }
}

/// An importer: an ordered transform over the configuration document.
#[derive(Debug, Clone, PartialEq)]
pub enum Importer {
    /// Structural merge of a partial configuration.
    Merge(Merge),
    /// A user-authored script over the whole document; its evaluation runs
    /// outside the library.
    Rhai(Rhai),
}

/// The merge importer.
#[derive(Debug, Clone, PartialEq)]
pub struct Merge {}

impl Merge {
    /// Builds the merge importer: always succeeds.
    pub fn build(_config: EmptyConfig) -> (r: Result<Merge, Error>)
        ensures
            r == Ok::<Merge, Error>(Merge {  }),
    {
        Ok(Merge {  })
    }

    /// Wraps the importer for the pipeline.
    pub fn into_dyn(self) -> (r: Importer)
        ensures
            r == Importer::Merge(self),
    {
        Importer::Merge(self)
    }

    /// Applies the merge: the other document's tables are merged into the
    /// accumulator, the right side winning on shared keys.
    pub fn process(&self, config: &mut Config, other: Config)
        requires
            old(config).net.wf(),
            old(config).server.wf(),
            other.net.wf(),
            other.server.wf(),
        ensures
            final (config).id == old(config).id,
            final (config).net.wf(),
            final (config).server.wf(),
            forall|k: Seq<char>|
                final (config).net.spec_get(k) == if other.net.spec_get(k) is Some {
                    other.net.spec_get(k)
                } else {
                    old(config).net.spec_get(k)
                },
            forall|k: Seq<char>|
                final (config).server.spec_get(k) == if other.server.spec_get(k) is Some {
                    other.server.spec_get(k)
                } else {
                    old(config).server.spec_get(k)
                },
    {
        config.merge(other);
    }
}

/// The scripted importer: a sandboxed expression language over the document.
/// The evaluation itself runs outside the library; the importer here is its
/// registration surface.
#[derive(Debug, Clone, PartialEq)]
pub struct Rhai {}

impl Rhai {
    /// Builds the scripted importer: always succeeds.
    pub fn build(_config: EmptyConfig) -> (r: Result<Rhai, Error>)
        ensures
            r == Ok::<Rhai, Error>(Rhai {  }),
    {
        Ok(Rhai {  })
    }

    /// Wraps the importer for the pipeline.
    pub fn into_dyn(self) -> (r: Importer)
        ensures
            r == Importer::Rhai(self),
    {
        Importer::Rhai(self)
    }
}

} // verus!

//! The running graph: every live net behind a stable handle, every server as
//! a restartable state machine, and the reconcile step that diffs a new
//! configuration against the running one and mutates it in place.

use vstd::prelude::*;

use crate::config::{Config, Net, Server};
use crate::json::{value_eq, value_equal, Value};
use crate::strmap::StrMap;
use crate::strutil::str_eq;

verus! {

/// One live net: its descriptor, how many times its inner was rebuilt, and a
/// handle identity that stays stable for the lifetime of the id, so holders
/// across a reload keep working.
#[derive(Debug, Clone, PartialEq)]
pub struct RunningNet {
    pub net_type: String,
    pub opt: Value,
    pub build_count: u64,
    pub handle: u64,
}

/// Where a running server stands in its lifecycle.
#[derive(Debug, Clone, PartialEq)]
pub enum ServerState {
    /// No configuration applied yet.
    WaitConfig,
    /// The accept task runs with these options.
    Running { opt: Value },
    /// The task ended; `ok` tells how, `message` carries the error text.
    Finished { ok: bool, message: String },
}

/// One live server: a state machine `WaitConfig -> Running -> Finished`,
/// counting restarts.
#[derive(Debug, Clone, PartialEq)]
pub struct RunningServer {
    pub server_type: String,
    pub state: ServerState,
    pub restart_count: u64,
}

impl RunningServer {
    /// A fresh server that waits for its configuration.
    pub fn new(server_type: String) -> (r: Self)
        ensures
            r.server_type == server_type,
            r.state == ServerState::WaitConfig,
            r.restart_count == 0,
    {
        RunningServer { server_type, state: ServerState::WaitConfig, restart_count: 0 }
    }

    /// Applies options: on a running server with equal options this is a
    /// no-op; otherwise the old task gives way and a new one starts. Returns
    /// whether a (re)start happened.
    pub fn start(&mut self, opt: Value) -> (started: bool)
        requires
            old(self).restart_count < u64::MAX,
        ensures
            !started ==> *final (self) == *old(self) && (old(self).state matches
                ServerState::Running { opt: o } && value_eq(o, opt)),
            started ==> final (self).state == (ServerState::Running { opt })
                && final (self).restart_count == old(self).restart_count + 1
                && final (self).server_type == old(self).server_type,
            started ==> !(old(self).state matches ServerState::Running { opt: o } && value_eq(
                o,
                opt,
            )),
    {
        let same = match &self.state {
            ServerState::Running { opt: o } => value_equal(o, &opt),
            _ => false,
        };
        if same {
            return false;
        }
        self.state = ServerState::Running { opt };
        self.restart_count = self.restart_count + 1;
        true
    }

    /// The accept task ended: records how.
    pub fn finish(&mut self, ok: bool, message: String)
        ensures
            final (self).state == (ServerState::Finished { ok, message }),
            final (self).server_type == old(self).server_type,
            final (self).restart_count == old(self).restart_count,
    {
        self.state = ServerState::Finished { ok, message };
    }

    /// Stops the server: a running task is aborted and joined, and the
    /// outcome of the abort is recorded, so it can still be taken; anything
    /// else is left alone. Stopping twice changes nothing more: stop is
    /// idempotent.
    pub fn stop(&mut self)
        ensures
            final (self).server_type == old(self).server_type,
            final (self).restart_count == old(self).restart_count,
            match old(self).state {
                ServerState::Running { opt: _ } => final (self).state matches
                    ServerState::Finished { ok, message } && ok == false && message@
                    == "aborted"@,
                _ => final (self).state == old(self).state,
            },
    {
        match &self.state {
            ServerState::Running { .. } => {
                self.state = ServerState::Finished { ok: false, message: "aborted".to_owned() };
            }
            _ => {}
        }
    }

    /// Takes the outcome of a finished server, resetting it to wait for a
    /// configuration; a server in any other state yields nothing and is left
    /// alone.
    pub fn take_result(&mut self) -> (r: Option<(bool, String)>)
        ensures
            final (self).server_type == old(self).server_type,
            final (self).restart_count == old(self).restart_count,
            match old(self).state {
                ServerState::Finished { ok, message } => r == Some((ok, message))
                    && final (self).state == ServerState::WaitConfig,
                _ => r is None && final (self).state == old(self).state,
            },
    {
        let state = crate::strutil::mem_replace(&mut self.state, ServerState::WaitConfig);
        match state {
            ServerState::Finished { ok, message } => Some((ok, message)),
            other => {
                self.state = other;
                None
            }
        }
    }
}

/// The whole running engine: nets and servers by id, a handle counter, and a
/// reconcile counter.
#[derive(Debug, Clone, PartialEq)]
pub struct RunningGraph {
    pub nets: StrMap<RunningNet>,
    pub servers: StrMap<RunningServer>,
    pub next_handle: u64,
    pub reconcile_count: u64,
}

/// A running net still serves the descriptor: same type, equal options.
pub open spec fn net_matches(rn: RunningNet, d: Net) -> bool {
    rn.net_type@ == d.net_type@ && value_eq(rn.opt, d.opt)
}

/// A running server still serves the descriptor: same type, running with
/// equal options.
pub open spec fn server_matches(rs: RunningServer, d: Server) -> bool {
    rs.server_type@ == d.server_type@ && (rs.state matches ServerState::Running { opt } && value_eq(
        opt,
        d.opt,
    ))
}

/// What reconciling `c` over `pre` leaves behind, id by id:
/// - an id absent from `c` is gone;
/// - an id whose running net still matches its descriptor is untouched, so
///   no restart and no rebuild happens;
/// - an id with a changed descriptor keeps its handle but its inner is
///   rebuilt from the new options;
/// - a new id gets a fresh handle and an inner built from its options.
pub open spec fn reconcile_post(pre: RunningGraph, c: Config, post: RunningGraph) -> bool {
    &&& (forall|k: Seq<char>|
        #[trigger] post.nets.spec_get(k) == match c.net.spec_get(k) {
            None => None::<RunningNet>,
            Some(d) => Some(
                match pre.nets.spec_get(k) {
                    Some(rn) => if net_matches(rn, d) {
                        rn
                    } else {
                        RunningNet {
                            net_type: d.net_type,
                            opt: d.opt,
                            build_count: (rn.build_count + 1) as u64,
                            handle: rn.handle,
                        }
                    },
                    None => post.nets.spec_get(k)->0,
                },
            ),
        })
    &&& (forall|k: Seq<char>|
        c.net.spec_get(k) is Some && pre.nets.spec_get(k) is None ==> {
            let rn = #[trigger] post.nets.spec_get(k)->0;
            let d = c.net.spec_get(k)->0;
            rn.net_type == d.net_type && rn.opt == d.opt && rn.build_count == 1 && rn.handle
                >= pre.next_handle
        })
    &&& (forall|k: Seq<char>|
        #[trigger] post.servers.spec_get(k) == match c.server.spec_get(k) {
            None => None::<RunningServer>,
            Some(d) => Some(
                match pre.servers.spec_get(k) {
                    Some(rs) => if server_matches(rs, d) {
                        rs
                    } else {
                        RunningServer {
                            server_type: d.server_type,
                            state: ServerState::Running { opt: d.opt },
                            restart_count: (rs.restart_count + 1) as u64,
                        }
                    },
                    None => post.servers.spec_get(k)->0,
                },
            ),
        })
    &&& (forall|k: Seq<char>|
        c.server.spec_get(k) is Some && pre.servers.spec_get(k) is None ==> {
            let rs = #[trigger] post.servers.spec_get(k)->0;
            let d = c.server.spec_get(k)->0;
            rs.server_type == d.server_type && rs.state == (ServerState::Running { opt: d.opt })
                && rs.restart_count == 1
        })
}

impl RunningGraph {
    /// All nets and servers are keyed uniquely.
    pub open spec fn wf(&self) -> bool {
        self.nets.wf() && self.servers.wf()
    }

    /// An empty graph.
    pub fn new() -> (r: Self)
        ensures
            r.wf(),
            r.nets.entries@.len() == 0,
            r.servers.entries@.len() == 0,
            r.reconcile_count == 0,
    {
        RunningGraph {
            nets: StrMap::new(),
            servers: StrMap::new(),
            next_handle: 0,
            reconcile_count: 0,
        }
    }
}

/// Keeps only the entries of `src` whose key `keep` also holds.
fn prune<V, W>(src: StrMap<V>, keep: &StrMap<W>) -> (r: StrMap<V>)
    requires
        src.wf(),
    ensures
        r.wf(),
        forall|k: Seq<char>|
            #[trigger] r.spec_get(k) == if keep.spec_contains(k) {
                src.spec_get(k)
            } else {
                None::<V>
            },
{
    let ghost all = src.entries@;
    let mut rest = src;
    let mut out: StrMap<V> = StrMap::new();
    let total = rest.entries.len();
    proof {
        assert(rest.entries@.skip(0) =~= all);
        assert(all.take(0) =~= Seq::<(String, V)>::empty());
    }
    let mut taken: usize = 0;
    while rest.entries.len() > 0
        invariant
            out.wf(),
            crate::strmap::keys_unique(all),
            taken + rest.entries@.len() == total,
            total == all.len(),
            rest.entries@ =~= all.skip(taken as int),
            forall|k: Seq<char>|
                #[trigger] out.spec_get(k) == if keep.spec_contains(k) && crate::strmap::seq_get(
                    all.take(taken as int),
                    k,
                ) is Some {
                    crate::strmap::seq_get(all.take(taken as int), k)
                } else {
                    None::<V>
                },
        decreases rest.entries@.len(),
    {
        proof {
            assert(taken < all.len());
        }
        let ghost rest0 = rest.entries@;
        let ghost entry = all[taken as int];
        let (k, v) = rest.entries.remove(0);
        proof {
            assert(rest.entries@ =~= rest0.skip(1));
            assert(rest0[0] == all.skip(taken as int)[0]);
            assert(entry == rest0[0]);
        }
        let ghost kview = k@;
        let ghost out_before = out;
        let wanted = keep.contains_key(k.as_str());
        if wanted {
            out.insert(k, v);
        }
        proof {
            let t0 = taken as int;
            let t1 = taken as int + 1;
            assert(all.take(t1) =~= all.take(t0).push(entry));
            assert forall|k2: Seq<char>| true implies #[trigger] out.spec_get(k2) == if keep.spec_contains(
                k2,
            ) && crate::strmap::seq_get(all.take(t1), k2) is Some {
                crate::strmap::seq_get(all.take(t1), k2)
            } else {
                None::<V>
            } by {
                crate::strmap::lemma_seq_get_push(all.take(t0), entry, k2);
                if k2 == kview {
                    assert forall|j: int| 0 <= j < t0 implies all.take(t0)[j].0@ != kview by {
                        assert(all.take(t0)[j] == all[j]);
                    }
                    crate::strmap::lemma_seq_get_absent(all.take(t0), kview);
                }
            }
        }
        taken += 1;
    }
    proof {
        assert(all.take(total as int) =~= all);
    }
    out
}

impl RunningGraph {
    /// Reconciles a new configuration against the running graph, in place:
    /// nets and servers that the configuration no longer names are dropped;
    /// ids whose descriptor is unchanged are untouched (no rebuild, no
    /// restart); ids with a changed descriptor are rebuilt or restarted under
    /// their stable handle; new ids are built fresh. One reconcile step is
    /// counted.
    pub fn reconcile(&mut self, c: Config)
        requires
            old(self).wf(),
            crate::config::config_wf(c),
            old(self).reconcile_count < u64::MAX,
            old(self).next_handle + c.net.entries@.len() <= u64::MAX,
            forall|i: int|
                0 <= i < old(self).nets.entries@.len() ==> (#[trigger] old(
                    self,
                ).nets.entries@[i]).1.build_count < u64::MAX,
            forall|i: int|
                0 <= i < old(self).servers.entries@.len() ==> (#[trigger] old(
                    self,
                ).servers.entries@[i]).1.restart_count < u64::MAX,
        ensures
            final (self).wf(),
            reconcile_post(*old(self), c, *final (self)),
            final (self).reconcile_count == old(self).reconcile_count + 1,
            final (self).next_handle >= old(self).next_handle,
    {
        let ghost pre = *self;
        let Config { id: _, net: cnets, server: cservers } = c;

        // nets: prune, then apply
        let old_nets = crate::strutil::mem_replace(&mut self.nets, StrMap::new());
        let mut kept = prune(old_nets, &cnets);
        let ghost kept0 = kept;
        proof {
            assert forall|k: Seq<char>| cnets.spec_contains(k) implies #[trigger] kept0.spec_get(
                k,
            ) == pre.nets.spec_get(k) by {}
            assert forall|k: Seq<char>|
                pre.nets.spec_get(k) is Some implies (#[trigger] pre.nets.spec_get(
                k,
            ))->0.build_count < u64::MAX by {
                pre.nets.lemma_contains_index(k);
            }
        }
        let ghost call = cnets.entries@;
        let mut crest = cnets;
        let ctotal = crest.entries.len();
        proof {
            assert(crest.entries@.skip(0) =~= call);
            assert(call.take(0) =~= Seq::<(String, Net)>::empty());
        }
        let mut ci: usize = 0;
        while crest.entries.len() > 0
            invariant
                kept.wf(),
                crate::strmap::keys_unique(call),
                ci + crest.entries@.len() == ctotal,
                ctotal == call.len(),
                crest.entries@ =~= call.skip(ci as int),
                pre.next_handle + call.len() <= u64::MAX,
                pre.next_handle <= self.next_handle,
                self.next_handle <= pre.next_handle + ci,
                self.servers == pre.servers,
                self.reconcile_count == pre.reconcile_count,
                forall|k: Seq<char>|
                    cnets_sg(call, k) is Some ==> #[trigger] kept0.spec_get(k)
                        == pre.nets.spec_get(k),
                forall|k: Seq<char>|
                    pre.nets.spec_get(k) is Some ==> (#[trigger] pre.nets.spec_get(
                        k,
                    ))->0.build_count < u64::MAX,
                forall|k: Seq<char>|
                    #[trigger] kept.spec_get(k) == if crate::strmap::seq_get(
                        call.take(ci as int),
                        k,
                    ) is Some {
                        let d = crate::strmap::seq_get(call.take(ci as int), k)->0;
                        Some(
                            match pre.nets.spec_get(k) {
                                Some(rn) => if net_matches(rn, d) {
                                    rn
                                } else {
                                    RunningNet {
                                        net_type: d.net_type,
                                        opt: d.opt,
                                        build_count: (rn.build_count + 1) as u64,
                                        handle: rn.handle,
                                    }
                                },
                                None => kept.spec_get(k)->0,
                            },
                        )
                    } else {
                        kept0.spec_get(k)
                    },
                forall|k: Seq<char>|
                    crate::strmap::seq_get(call.take(ci as int), k) is Some
                        && pre.nets.spec_get(k) is None ==> {
                        let rn = (#[trigger] kept.spec_get(k))->0;
                        let d = crate::strmap::seq_get(call.take(ci as int), k)->0;
                        kept.spec_get(k) is Some && rn.net_type == d.net_type && rn.opt == d.opt
                            && rn.build_count == 1 && rn.handle >= pre.next_handle
                    },
            decreases crest.entries@.len(),
        {
            proof {
                assert(ci < call.len());
            }
            let ghost rest0 = crest.entries@;
            let ghost entry = call[ci as int];
            let (k, d) = crest.entries.remove(0);
            proof {
                assert(crest.entries@ =~= rest0.skip(1));
                assert(rest0[0] == call.skip(ci as int)[0]);
                assert(entry == rest0[0]);
                assert forall|j: int| 0 <= j < ci implies call.take(ci as int)[j].0@ != k@ by {
                    assert(call.take(ci as int)[j] == call[j]);
                }
                crate::strmap::lemma_seq_get_absent(call.take(ci as int), k@);
            }
            let ghost kview = k@;
            proof {
                crate::strmap::lemma_seq_get_present(call, ci as int, kview);
                assert(crate::strmap::seq_get(call.take(ci as int), kview) is None);
                assert(kept.spec_get(kview) == kept0.spec_get(kview));
                assert(cnets_sg(call, kview) is Some);
                assert(kept.spec_get(kview) == pre.nets.spec_get(kview));
            }
            let ghost kept_before = kept;
            let prev_handle: Option<(u64, u64, bool)> = match kept.get(k.as_str()) {
                Some(rn) => {
                    let same = str_eq(rn.net_type.as_str(), d.net_type.as_str()) && value_equal(
                        &rn.opt,
                        &d.opt,
                    );
                    Some((rn.handle, rn.build_count, same))
                }
                None => None,
            };
            match prev_handle {
                Some((_, _, true)) => {
                    // unchanged: the running net is left untouched
                }
                Some((handle, build_count, false)) => {
                    kept.insert(
                        k,
                        RunningNet {
                            net_type: d.net_type,
                            opt: d.opt,
                            build_count: build_count + 1,
                            handle,
                        },
                    );
                }
                None => {
                    let handle = self.next_handle;
                    self.next_handle = self.next_handle + 1;
                    kept.insert(
                        k,
                        RunningNet { net_type: d.net_type, opt: d.opt, build_count: 1, handle },
                    );
                }
            }
            proof {
                let t0 = ci as int;
                let t1 = ci as int + 1;
                assert(call.take(t1) =~= call.take(t0).push(entry));
                assert forall|k2: Seq<char>| true implies #[trigger] kept.spec_get(k2)
                    == if crate::strmap::seq_get(call.take(t1), k2) is Some {
                    let dd = crate::strmap::seq_get(call.take(t1), k2)->0;
                    Some(
                        match pre.nets.spec_get(k2) {
                            Some(rn) => if net_matches(rn, dd) {
                                rn
                            } else {
                                RunningNet {
                                    net_type: dd.net_type,
                                    opt: dd.opt,
                                    build_count: (rn.build_count + 1) as u64,
                                    handle: rn.handle,
                                }
                            },
                            None => kept.spec_get(k2)->0,
                        },
                    )
                } else {
                    kept0.spec_get(k2)
                } by {
                    crate::strmap::lemma_seq_get_push(call.take(t0), entry, k2);
                    if k2 == kview {
                        crate::strmap::lemma_seq_get_present(call, ci as int, kview);
                    }
                }
                assert forall|k2: Seq<char>|
                    crate::strmap::seq_get(call.take(t1), k2) is Some && pre.nets.spec_get(
                        k2,
                    ) is None implies {
                    let rn = (#[trigger] kept.spec_get(k2))->0;
                    let dd = crate::strmap::seq_get(call.take(t1), k2)->0;
                    kept.spec_get(k2) is Some && rn.net_type == dd.net_type && rn.opt == dd.opt
                        && rn.build_count == 1 && rn.handle >= pre.next_handle
                } by {
                    crate::strmap::lemma_seq_get_push(call.take(t0), entry, k2);
                }
            }
            ci += 1;
        }
        proof {
            assert(call.take(ctotal as int) =~= call);
        }
        self.nets = kept;

        // servers: prune, then apply
        let old_servers = crate::strutil::mem_replace(&mut self.servers, StrMap::new());
        let mut skept = prune(old_servers, &cservers);
        let ghost skept0 = skept;
        proof {
            assert forall|k: Seq<char>|
                pre.servers.spec_get(k) is Some implies (#[trigger] pre.servers.spec_get(
                k,
            ))->0.restart_count < u64::MAX by {
                pre.servers.lemma_contains_index(k);
            }
        }
        let ghost sall = cservers.entries@;
        let mut srest = cservers;
        let stotal = srest.entries.len();
        proof {
            assert(srest.entries@.skip(0) =~= sall);
            assert(sall.take(0) =~= Seq::<(String, Server)>::empty());
        }
        let mut si: usize = 0;
        while srest.entries.len() > 0
            invariant
                skept.wf(),
                crate::strmap::keys_unique(sall),
                si + srest.entries@.len() == stotal,
                stotal == sall.len(),
                srest.entries@ =~= sall.skip(si as int),
                forall|k: Seq<char>|
                    cservers_sg(sall, k) is Some ==> #[trigger] skept0.spec_get(k)
                        == pre.servers.spec_get(k),
                forall|k: Seq<char>|
                    pre.servers.spec_get(k) is Some ==> (#[trigger] pre.servers.spec_get(
                        k,
                    ))->0.restart_count < u64::MAX,
                forall|k: Seq<char>|
                    #[trigger] skept.spec_get(k) == if crate::strmap::seq_get(
                        sall.take(si as int),
                        k,
                    ) is Some {
                        let d = crate::strmap::seq_get(sall.take(si as int), k)->0;
                        Some(
                            match pre.servers.spec_get(k) {
                                Some(rs) => if server_matches(rs, d) {
                                    rs
                                } else {
                                    RunningServer {
                                        server_type: d.server_type,
                                        state: ServerState::Running { opt: d.opt },
                                        restart_count: (rs.restart_count + 1) as u64,
                                    }
                                },
                                None => skept.spec_get(k)->0,
                            },
                        )
                    } else {
                        skept0.spec_get(k)
                    },
                forall|k: Seq<char>|
                    crate::strmap::seq_get(sall.take(si as int), k) is Some
                        && pre.servers.spec_get(k) is None ==> {
                        let rs = (#[trigger] skept.spec_get(k))->0;
                        let d = crate::strmap::seq_get(sall.take(si as int), k)->0;
                        skept.spec_get(k) is Some && rs.server_type == d.server_type && rs.state
                            == (ServerState::Running { opt: d.opt }) && rs.restart_count == 1
                    },
            decreases srest.entries@.len(),
        {
            proof {
                assert(si < sall.len());
            }
            let ghost rest0 = srest.entries@;
            let ghost entry = sall[si as int];
            let (k, d) = srest.entries.remove(0);
            proof {
                assert(srest.entries@ =~= rest0.skip(1));
                assert(rest0[0] == sall.skip(si as int)[0]);
                assert(entry == rest0[0]);
                assert forall|j: int| 0 <= j < si implies sall.take(si as int)[j].0@ != k@ by {
                    assert(sall.take(si as int)[j] == sall[j]);
                }
                crate::strmap::lemma_seq_get_absent(sall.take(si as int), k@);
            }
            let ghost kview = k@;
            proof {
                crate::strmap::lemma_seq_get_present(sall, si as int, kview);
                assert(crate::strmap::seq_get(sall.take(si as int), kview) is None);
                assert(skept.spec_get(kview) == skept0.spec_get(kview));
                assert(cservers_sg(sall, kview) is Some);
                assert(skept.spec_get(kview) == pre.servers.spec_get(kview));
            }
            let prev: Option<(u64, bool)> = match skept.get(k.as_str()) {
                Some(rs) => {
                    let same_type = str_eq(rs.server_type.as_str(), d.server_type.as_str());
                    let same_opt = match &rs.state {
                        ServerState::Running { opt } => value_equal(opt, &d.opt),
                        _ => false,
                    };
                    Some((rs.restart_count, same_type && same_opt))
                }
                None => None,
            };
            match prev {
                Some((_, true)) => {
                    // unchanged: the running server keeps its task
                }
                Some((restart_count, false)) => {
                    skept.insert(
                        k,
                        RunningServer {
                            server_type: d.server_type,
                            state: ServerState::Running { opt: d.opt },
                            restart_count: restart_count + 1,
                        },
                    );
                }
                None => {
                    skept.insert(
                        k,
                        RunningServer {
                            server_type: d.server_type,
                            state: ServerState::Running { opt: d.opt },
                            restart_count: 1,
                        },
                    );
                }
            }
            proof {
                let t0 = si as int;
                let t1 = si as int + 1;
                assert(sall.take(t1) =~= sall.take(t0).push(entry));
                assert forall|k2: Seq<char>| true implies #[trigger] skept.spec_get(k2)
                    == if crate::strmap::seq_get(sall.take(t1), k2) is Some {
                    let dd = crate::strmap::seq_get(sall.take(t1), k2)->0;
                    Some(
                        match pre.servers.spec_get(k2) {
                            Some(rs) => if server_matches(rs, dd) {
                                rs
                            } else {
                                RunningServer {
                                    server_type: dd.server_type,
                                    state: ServerState::Running { opt: dd.opt },
                                    restart_count: (rs.restart_count + 1) as u64,
                                }
                            },
                            None => skept.spec_get(k2)->0,
                        },
                    )
                } else {
                    skept0.spec_get(k2)
                } by {
                    crate::strmap::lemma_seq_get_push(sall.take(t0), entry, k2);
                    if k2 == kview {
                        crate::strmap::lemma_seq_get_present(sall, si as int, kview);
                    }
                }
                assert forall|k2: Seq<char>|
                    crate::strmap::seq_get(sall.take(t1), k2) is Some && pre.servers.spec_get(
                        k2,
                    ) is None implies {
                    let rs = (#[trigger] skept.spec_get(k2))->0;
                    let dd = crate::strmap::seq_get(sall.take(t1), k2)->0;
                    skept.spec_get(k2) is Some && rs.server_type == dd.server_type && rs.state
                        == (ServerState::Running { opt: dd.opt }) && rs.restart_count == 1
                } by {
                    crate::strmap::lemma_seq_get_push(sall.take(t0), entry, k2);
                }
            }
            si += 1;
        }
        proof {
            assert(sall.take(stotal as int) =~= sall);
        }
        self.servers = skept;
        self.reconcile_count = self.reconcile_count + 1;
    }
}

/// After a reconcile, every id of the configuration's net table is served by
/// exactly one running net, and that net's inner was built from the id's
/// options.
pub proof fn lemma_reconcile_builds_each_net(
    pre: RunningGraph,
    c: Config,
    post: RunningGraph,
    k: Seq<char>,
)
    requires
        reconcile_post(pre, c, post),
        c.net.spec_get(k) is Some,
    ensures
        post.nets.spec_get(k) is Some,
        net_matches(post.nets.spec_get(k)->0, c.net.spec_get(k)->0),
{
    let d = c.net.spec_get(k)->0;
    match pre.nets.spec_get(k) {
        Some(rn) => {
            if net_matches(rn, d) {
            } else {
                crate::json::lemma_value_eq_refl(d.opt);
            }
        }
        None => {
            crate::json::lemma_value_eq_refl(d.opt);
        }
    }
}

/// Looking a key up in two entrywise-interchangeable net tables gives
/// interchangeable results.
proof fn lemma_net_table_get(a: Seq<(String, Net)>, b: Seq<(String, Net)>, k: Seq<char>)
    requires
        a.len() == b.len(),
        forall|i: int|
            0 <= i < a.len() ==> (#[trigger] a[i]).0@ == b[i].0@ && crate::config::net_eq(
                a[i].1,
                b[i].1,
            ),
    ensures
        crate::strmap::seq_get(a, k) is Some <==> crate::strmap::seq_get(b, k) is Some,
        crate::strmap::seq_get(a, k) is Some ==> crate::config::net_eq(
            crate::strmap::seq_get(a, k)->0,
            crate::strmap::seq_get(b, k)->0,
        ),
    decreases a.len(),
{
    if a.len() > 0 {
        assert(a[0].0@ == b[0].0@ && crate::config::net_eq(a[0].1, b[0].1));
        if a[0].0@ != k {
            assert forall|i: int| 0 <= i < a.skip(1).len() implies (#[trigger] a.skip(1)[i]).0@
                == b.skip(1)[i].0@ && crate::config::net_eq(a.skip(1)[i].1, b.skip(1)[i].1) by {
                assert(a.skip(1)[i] == a[i + 1]);
                assert(b.skip(1)[i] == b[i + 1]);
            }
            lemma_net_table_get(a.skip(1), b.skip(1), k);
        }
    }
}

/// Looking a key up in two entrywise-interchangeable server tables gives
/// interchangeable results.
proof fn lemma_server_table_get(a: Seq<(String, Server)>, b: Seq<(String, Server)>, k: Seq<char>)
    requires
        a.len() == b.len(),
        forall|i: int|
            0 <= i < a.len() ==> (#[trigger] a[i]).0@ == b[i].0@ && crate::config::server_eq(
                a[i].1,
                b[i].1,
            ),
    ensures
        crate::strmap::seq_get(a, k) is Some <==> crate::strmap::seq_get(b, k) is Some,
        crate::strmap::seq_get(a, k) is Some ==> crate::config::server_eq(
            crate::strmap::seq_get(a, k)->0,
            crate::strmap::seq_get(b, k)->0,
        ),
    decreases a.len(),
{
    if a.len() > 0 {
        assert(a[0].0@ == b[0].0@ && crate::config::server_eq(a[0].1, b[0].1));
        if a[0].0@ != k {
            assert forall|i: int| 0 <= i < a.skip(1).len() implies (#[trigger] a.skip(1)[i]).0@
                == b.skip(1)[i].0@ && crate::config::server_eq(a.skip(1)[i].1, b.skip(1)[i].1) by {
                assert(a.skip(1)[i] == a[i + 1]);
                assert(b.skip(1)[i] == b[i + 1]);
            }
            lemma_server_table_get(a.skip(1), b.skip(1), k);
        }
    }
}

/// Applying the same configuration twice is a no-op: the second reconcile
/// leaves every net and every server exactly as the first left it — no
/// rebuild, no restart — and only the reconcile counter moves.
pub proof fn lemma_reconcile_idempotent(
    g0: RunningGraph,
    c1: Config,
    g1: RunningGraph,
    c2: Config,
    g2: RunningGraph,
)
    requires
        reconcile_post(g0, c1, g1),
        reconcile_post(g1, c2, g2),
        crate::config::config_eq(c1, c2),
    ensures
        forall|k: Seq<char>| #[trigger] g2.nets.spec_get(k) == g1.nets.spec_get(k),
        forall|k: Seq<char>| #[trigger] g2.servers.spec_get(k) == g1.servers.spec_get(k),
{
    assert forall|k: Seq<char>| #[trigger] g2.nets.spec_get(k) == g1.nets.spec_get(k) by {
        lemma_net_table_get(c1.net.entries@, c2.net.entries@, k);
        match c2.net.spec_get(k) {
            None => {
                assert(c1.net.spec_get(k) is None);
                assert(g1.nets.spec_get(k) is None);
            }
            Some(d2) => {
                let d1 = c1.net.spec_get(k)->0;
                assert(crate::config::net_eq(d1, d2));
                let rn1 = g1.nets.spec_get(k)->0;
                // after the first reconcile, the running net matches d1
                match g0.nets.spec_get(k) {
                    Some(rn0) => {
                        if net_matches(rn0, d1) {
                        } else {
                            crate::json::lemma_value_eq_refl(d1.opt);
                        }
                    }
                    None => {
                        crate::json::lemma_value_eq_refl(d1.opt);
                    }
                }
                assert(net_matches(rn1, d1));
                crate::json::lemma_value_eq_trans(rn1.opt, d1.opt, d2.opt);
                assert(net_matches(rn1, d2));
            }
        }
    }
    assert forall|k: Seq<char>| #[trigger] g2.servers.spec_get(k) == g1.servers.spec_get(k) by {
        lemma_server_table_get(c1.server.entries@, c2.server.entries@, k);
        match c2.server.spec_get(k) {
            None => {
                assert(c1.server.spec_get(k) is None);
                assert(g1.servers.spec_get(k) is None);
            }
            Some(d2) => {
                let d1 = c1.server.spec_get(k)->0;
                assert(crate::config::server_eq(d1, d2));
                let rs1 = g1.servers.spec_get(k)->0;
                match g0.servers.spec_get(k) {
                    Some(rs0) => {
                        if server_matches(rs0, d1) {
                        } else {
                            crate::json::lemma_value_eq_refl(d1.opt);
                        }
                    }
                    None => {
                        crate::json::lemma_value_eq_refl(d1.opt);
                    }
                }
                assert(server_matches(rs1, d1));
                crate::json::lemma_value_eq_trans(
                    rs1.state->Running_opt,
                    d1.opt,
                    d2.opt,
                );
                assert(server_matches(rs1, d2));
            }
        }
    }
}

/// The table lookup of a net descriptor sequence, by name.
pub open spec fn cnets_sg(s: Seq<(String, Net)>, k: Seq<char>) -> Option<Net> {
    crate::strmap::seq_get(s, k)
}

/// The table lookup of a server descriptor sequence, by name.
pub open spec fn cservers_sg(s: Seq<(String, Server)>, k: Seq<char>) -> Option<Server> {
    crate::strmap::seq_get(s, k)
}

} // verus!

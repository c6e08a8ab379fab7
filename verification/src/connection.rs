//! Connection accounting: one record per live flow, with byte counters fed by
//! the wrapper streams, an administrative kill signal, and consistent
//! snapshots.

use vstd::prelude::*;

use crate::address::Address;
use crate::json::Value;
use crate::strmap::StrMap;

verus! {

/// Whether a flow is a TCP stream or a UDP socket.
#[derive(Debug, Clone, Copy, PartialEq, Eq)]
pub enum ConnKind {
    Tcp,
    Udp,
}

/// One tracked flow: its kind, remote address, inbound context, byte
/// counters, the kill signal, and the history of observations that fed the
/// counters.
#[derive(Clone)]
pub struct ConnRecord {
    pub kind: ConnKind,
    pub remote: Address,
    pub ctx: Value,
    pub bytes_in: u64,
    pub bytes_out: u64,
    pub killed: bool,
    pub reads: Ghost<Seq<u64>>,
    pub writes: Ghost<Seq<u64>>,
}

/// The sum of a sequence of byte counts.
pub open spec fn sum_seq(s: Seq<u64>) -> nat
    decreases s.len(),
{
    if s.len() == 0 {
        0
    } else {
        (sum_seq(s.drop_last()) + s.last()) as nat
    }
}

/// The counters report exactly the observations: `bytes_in` is the total the
/// wrappers read, `bytes_out` the total they wrote.
pub open spec fn record_wf(r: ConnRecord) -> bool {
    r.bytes_in as nat == sum_seq(r.reads@) && r.bytes_out as nat == sum_seq(r.writes@)
}

/// The tracker: every live flow by uuid.
#[derive(Clone)]
pub struct ConnectionTracker {
    pub conns: StrMap<ConnRecord>,
}

impl ConnectionTracker {
    /// Unique uuids, and every record's counters report its observations.
    pub open spec fn wf(&self) -> bool {
        &&& self.conns.wf()
        &&& forall|k: Seq<char>|
            (#[trigger] self.conns.spec_get(k)) matches Some(r) ==> record_wf(r)
    }

    /// An empty tracker.
    pub fn new() -> (r: Self)
        ensures
            r.wf(),
            r.conns.entries@.len() == 0,
    {
        ConnectionTracker { conns: StrMap::new() }
    }

    /// A record present in the tracker reports its observations exactly: the
    /// final snapshot of a flow carries the total its wrapper read and the
    /// total it wrote.
    pub proof fn lemma_snapshot_reports_totals(&self, id: Seq<char>)
        requires
            self.wf(),
            self.conns.spec_get(id) is Some,
        ensures
            (self.conns.spec_get(id)->0).bytes_in as nat == sum_seq(
                (self.conns.spec_get(id)->0).reads@,
            ),
            (self.conns.spec_get(id)->0).bytes_out as nat == sum_seq(
                (self.conns.spec_get(id)->0).writes@,
            ),
    {
    }

    /// Registers a new flow under a fresh uuid, with zeroed counters and an
    /// unfired kill signal.
    pub fn new_conn(&mut self, id: String, kind: ConnKind, remote: Address, ctx: Value)
        requires
            old(self).wf(),
        ensures
            final (self).wf(),
            final (self).conns.spec_get(id@) == Some(
                ConnRecord {
                    kind,
                    remote,
                    ctx,
                    bytes_in: 0,
                    bytes_out: 0,
                    killed: false,
                    reads: Ghost(Seq::<u64>::empty()),
                    writes: Ghost(Seq::<u64>::empty()),
                },
            ),
            forall|k: Seq<char>|
                k != id@ ==> final (self).conns.spec_get(k) == old(self).conns.spec_get(k),
    {
        let rec = ConnRecord {
            kind,
            remote,
            ctx,
            bytes_in: 0,
            bytes_out: 0,
            killed: false,
            reads: Ghost(Seq::<u64>::empty()),
            writes: Ghost(Seq::<u64>::empty()),
        };
        proof {
            assert(rec.reads@ =~= Seq::<u64>::empty());
            assert(sum_seq(rec.reads@) == 0);
            assert(sum_seq(rec.writes@) == 0);
        }
        let ghost idv = id@;
        self.conns.insert(id, rec);
        proof {
            assert forall|k: Seq<char>| (#[trigger] self.conns.spec_get(k)) is Some
                implies record_wf(self.conns.spec_get(k)->0) by {
                if k != idv {
                    assert(self.conns.spec_get(k) == old(self).conns.spec_get(k));
                }
            }
        }
    }

    /// Accounts bytes the wrapper read on a flow. Returns whether the flow is
    /// known; an unknown uuid changes nothing.
    pub fn input(&mut self, id: &str, n: u64) -> (found: bool)
        requires
            old(self).wf(),
            old(self).conns.spec_get(id@) matches Some(r) ==> r.bytes_in + n <= u64::MAX,
        ensures
            final (self).wf(),
            found == old(self).conns.spec_get(id@) is Some,
            match old(self).conns.spec_get(id@) {
                Some(r) => final (self).conns.spec_get(id@) == Some(
                    ConnRecord {
                        bytes_in: (r.bytes_in + n) as u64,
                        reads: Ghost(r.reads@.push(n)),
                        ..r
                    },
                ),
                None => final (self).conns.spec_get(id@) is None,
            },
            forall|k: Seq<char>|
                k != id@ ==> final (self).conns.spec_get(k) == old(self).conns.spec_get(k),
    {
        let rec = match self.conns.remove(id) {
            Some(r) => r,
            None => {
                return false;
            }
        };
        let new_rec = ConnRecord {
            bytes_in: rec.bytes_in + n,
            reads: Ghost(rec.reads@.push(n)),
            ..rec
        };
        proof {
            assert(new_rec.reads@.drop_last() =~= rec.reads@);
            assert(sum_seq(new_rec.reads@) == sum_seq(rec.reads@) + n);
        }
        self.conns.insert(id.to_owned(), new_rec);
        proof {
            assert forall|k: Seq<char>| (#[trigger] self.conns.spec_get(k)) is Some
                implies record_wf(self.conns.spec_get(k)->0) by {
                if k != id@ {
                    assert(self.conns.spec_get(k) == old(self).conns.spec_get(k));
                }
            }
        }
        true
    }

    /// Accounts bytes the wrapper wrote on a flow.
    pub fn output(&mut self, id: &str, n: u64) -> (found: bool)
        requires
            old(self).wf(),
            old(self).conns.spec_get(id@) matches Some(r) ==> r.bytes_out + n <= u64::MAX,
        ensures
            final (self).wf(),
            found == old(self).conns.spec_get(id@) is Some,
            match old(self).conns.spec_get(id@) {
                Some(r) => final (self).conns.spec_get(id@) == Some(
                    ConnRecord {
                        bytes_out: (r.bytes_out + n) as u64,
                        writes: Ghost(r.writes@.push(n)),
                        ..r
                    },
                ),
                None => final (self).conns.spec_get(id@) is None,
            },
            forall|k: Seq<char>|
                k != id@ ==> final (self).conns.spec_get(k) == old(self).conns.spec_get(k),
    {
        let rec = match self.conns.remove(id) {
            Some(r) => r,
            None => {
                return false;
            }
        };
        let new_rec = ConnRecord {
            bytes_out: rec.bytes_out + n,
            writes: Ghost(rec.writes@.push(n)),
            ..rec
        };
        proof {
            assert(new_rec.writes@.drop_last() =~= rec.writes@);
            assert(sum_seq(new_rec.writes@) == sum_seq(rec.writes@) + n);
        }
        self.conns.insert(id.to_owned(), new_rec);
        proof {
            assert forall|k: Seq<char>| (#[trigger] self.conns.spec_get(k)) is Some
                implies record_wf(self.conns.spec_get(k)->0) by {
                if k != id@ {
                    assert(self.conns.spec_get(k) == old(self).conns.spec_get(k));
                }
            }
        }
        true
    }

    /// Fires one flow's kill signal. Returns whether the flow was known.
    /// Killing an already killed flow changes nothing: kill is idempotent.
    pub fn stop(&mut self, id: &str) -> (found: bool)
        requires
            old(self).wf(),
        ensures
            final (self).wf(),
            found == old(self).conns.spec_get(id@) is Some,
            match old(self).conns.spec_get(id@) {
                Some(r) => final (self).conns.spec_get(id@) == Some(
                    ConnRecord { killed: true, ..r },
                ),
                None => final (self).conns.spec_get(id@) is None,
            },
            forall|k: Seq<char>|
                k != id@ ==> final (self).conns.spec_get(k) == old(self).conns.spec_get(k),
    {
        let rec = match self.conns.remove(id) {
            Some(r) => r,
            None => {
                return false;
            }
        };
        self.conns.insert(id.to_owned(), ConnRecord { killed: true, ..rec });
        proof {
            assert forall|k: Seq<char>| (#[trigger] self.conns.spec_get(k)) is Some
                implies record_wf(self.conns.spec_get(k)->0) by {
                if k != id@ {
                    assert(self.conns.spec_get(k) == old(self).conns.spec_get(k));
                }
            }
        }
        true
    }

    /// Fires every kill signal. Returns how many flows there were.
    pub fn stop_all(&mut self) -> (count: usize)
        requires
            old(self).wf(),
        ensures
            final (self).wf(),
            count == old(self).conns.entries@.len(),
            final (self).conns.entries@.len() == old(self).conns.entries@.len(),
            forall|i: int|
                0 <= i < final (self).conns.entries@.len()
                    ==> (#[trigger] final (self).conns.entries@[i]) == (
                old(self).conns.entries@[i].0,
                ConnRecord { killed: true, ..old(self).conns.entries@[i].1 },
                ),
    {
        let ghost before = self.conns.entries@;
        let n = self.conns.entries.len();
        let mut out: Vec<(String, ConnRecord)> = Vec::new();
        let mut i: usize = 0;
        while i < n
            invariant
                0 <= i <= n,
                n == before.len(),
                self.conns.entries@ =~= before.skip(i as int),
                out@.len() == i,
                forall|j: int|
                    0 <= j < i ==> (#[trigger] out@[j]) == (
                    before[j].0,
                    ConnRecord { killed: true, ..before[j].1 },
                    ),
            decreases n - i,
        {
            let ghost rest0 = self.conns.entries@;
            let (k, rec) = self.conns.entries.remove(0);
            proof {
                assert(rest0[0] == before.skip(i as int)[0]);
                assert(self.conns.entries@ =~= rest0.skip(1));
            }
            out.push((k, ConnRecord { killed: true, ..rec }));
            i += 1;
        }
        self.conns = StrMap { entries: out };
        proof {
            assert forall|a: int, b: int|
                0 <= a < b < self.conns.entries@.len() implies self.conns.entries@[a].0@
                != self.conns.entries@[b].0@ by {
                assert(self.conns.entries@[a].0 == before[a].0);
                assert(self.conns.entries@[b].0 == before[b].0);
            }
            assert forall|k: Seq<char>| (#[trigger] self.conns.spec_get(k)) is Some
                implies record_wf(self.conns.spec_get(k)->0) by {
                if self.conns.spec_get(k) is Some {
                    self.conns.lemma_contains_index(k);
                    let j = choose|j: int|
                        0 <= j < self.conns.entries@.len() && self.conns.entries@[j].0@ == k
                            && self.conns.entries@[j].1 == self.conns.spec_get(k)->0;
                    assert(self.conns.entries@[j] == (
                    before[j].0,
                    ConnRecord { killed: true, ..before[j].1 },
                    ));
                    assert forall|m: int| 0 <= m < j implies before[m].0@ != k by {
                        assert(self.conns.entries@[m].0 == before[m].0);
                    }
                    crate::strmap::lemma_seq_get_present(before, j, k);
                    assert(old(self).conns.spec_get(k) == Some(before[j].1));
                    assert(record_wf(before[j].1));
                }
            }
        }
        n
    }

    /// Drops a flow's record: the wrapper stream was dropped or closed.
    /// Closing twice changes nothing: close is idempotent.
    pub fn close(&mut self, id: &str)
        requires
            old(self).wf(),
        ensures
            final (self).wf(),
            final (self).conns.spec_get(id@) is None,
            forall|k: Seq<char>|
                k != id@ ==> final (self).conns.spec_get(k) == old(self).conns.spec_get(k),
    {
        self.conns.remove(id);
        proof {
            assert forall|k: Seq<char>| (#[trigger] self.conns.spec_get(k)) is Some
                implies record_wf(self.conns.spec_get(k)->0) by {
                if k != id@ {
                    assert(self.conns.spec_get(k) == old(self).conns.spec_get(k));
                }
            }
        }
    }

    /// A consistent snapshot: the totals and every record's counters, taken
    /// together.
    pub fn snapshot(&self) -> (r: (u64, u64, Vec<(String, u64, u64)>))
        requires
            self.wf(),
        ensures
            r.2@.len() == self.conns.entries@.len(),
            forall|i: int|
                0 <= i < r.2@.len() ==> (#[trigger] r.2@[i]).0@ == self.conns.entries@[i].0@
                    && r.2@[i].1 == self.conns.entries@[i].1.bytes_in && r.2@[i].2
                    == self.conns.entries@[i].1.bytes_out,
            r.0 as nat == total_in(self.conns.entries@),
            r.1 as nat == total_out(self.conns.entries@),
    {
        let mut total_i: u64 = 0;
        let mut total_o: u64 = 0;
        let mut out: Vec<(String, u64, u64)> = Vec::new();
        let mut i: usize = 0;
        proof {
            assert(self.conns.entries@.take(0) =~= Seq::<(String, ConnRecord)>::empty());
        }
        while i < self.conns.entries.len()
            invariant
                0 <= i <= self.conns.entries@.len(),
                out@.len() == i,
                forall|j: int|
                    0 <= j < i ==> (#[trigger] out@[j]).0@ == self.conns.entries@[j].0@
                        && out@[j].1 == self.conns.entries@[j].1.bytes_in && out@[j].2
                        == self.conns.entries@[j].1.bytes_out,
                total_i as nat == total_in(self.conns.entries@.take(i as int)),
                total_o as nat == total_out(self.conns.entries@.take(i as int)),
            decreases self.conns.entries@.len() - i,
        {
            proof {
                assert(self.conns.entries@.take(i as int + 1).drop_last()
                    =~= self.conns.entries@.take(i as int));
                assert(self.conns.entries@.take(i as int + 1).last()
                    == self.conns.entries@[i as int]);
            }
            let e = &self.conns.entries[i];
            total_i = saturating_add(total_i, e.1.bytes_in);
            total_o = saturating_add(total_o, e.1.bytes_out);
            out.push((e.0.clone(), e.1.bytes_in, e.1.bytes_out));
            i += 1;
        }
        proof {
            assert(self.conns.entries@.take(self.conns.entries@.len() as int)
                =~= self.conns.entries@);
        }
        (total_i, total_o, out)
    }
}

/// The inbound decorator a constructed net is wrapped with, bound to its
/// originating server: it stamps the call context with the server chain and
/// registers the wrapper stream of every returned connection.
#[derive(Debug, Clone, PartialEq)]
pub struct RunningServerNet {
    pub server_name: String,
    pub net: String,
}

impl RunningServerNet {
    /// A decorator for one server around one net.
    pub fn new(server_name: String, net: String) -> (r: Self)
        ensures
            r.server_name == server_name,
            r.net == net,
    {
        RunningServerNet { server_name, net }
    }

    /// Stamps the call context: the server's name joins the inbound chain.
    pub fn append_net(&self, chain: &mut Vec<String>)
        ensures
            final (chain)@ == old(chain)@.push(self.server_name),
    {
        chain.push(self.server_name.clone());
        proof {
            assert(chain@ =~= old(chain)@.push(self.server_name));
        }
    }

    /// Registers the wrapper stream of one connection this net returned.
    pub fn register(
        &self,
        tracker: &mut ConnectionTracker,
        id: String,
        kind: ConnKind,
        remote: Address,
        ctx: Value,
    )
        requires
            old(tracker).wf(),
        ensures
            final (tracker).wf(),
            final (tracker).conns.spec_get(id@) == Some(
                ConnRecord {
                    kind,
                    remote,
                    ctx,
                    bytes_in: 0,
                    bytes_out: 0,
                    killed: false,
                    reads: Ghost(Seq::<u64>::empty()),
                    writes: Ghost(Seq::<u64>::empty()),
                },
            ),
            forall|k: Seq<char>|
                k != id@ ==> final (tracker).conns.spec_get(k) == old(tracker).conns.spec_get(k),
    {
        tracker.new_conn(id, kind, remote, ctx);
    }
}

/// Adds with saturation at the top of the range.
fn saturating_add(a: u64, b: u64) -> (r: u64)
    ensures
        r as nat == if a + b <= u64::MAX {
            (a + b) as nat
        } else {
            u64::MAX as nat
        },
{
    if b <= u64::MAX - a {
        a + b
    } else {
        u64::MAX
    }
}

/// The sum of all inbound counters, saturating at the top of the range.
pub open spec fn total_in(s: Seq<(String, ConnRecord)>) -> nat
    decreases s.len(),
{
    if s.len() == 0 {
        0
    } else if total_in(s.drop_last()) + s.last().1.bytes_in <= u64::MAX {
        (total_in(s.drop_last()) + s.last().1.bytes_in) as nat
    } else {
        u64::MAX as nat
    }
}

/// The sum of all outbound counters, saturating at the top of the range.
pub open spec fn total_out(s: Seq<(String, ConnRecord)>) -> nat
    decreases s.len(),
{
    if s.len() == 0 {
        0
    } else if total_out(s.drop_last()) + s.last().1.bytes_out <= u64::MAX {
        (total_out(s.drop_last()) + s.last().1.bytes_out) as nat
    } else {
        u64::MAX as nat
    }
}

} // verus!

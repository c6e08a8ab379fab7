//! Persisted selector overrides: a map from net id to the chosen child,
//! applied to a configuration when the chosen child is still in the declared
//! list.

use vstd::prelude::*;

use crate::config::{Config, Net};
use crate::json::{obj_get, obj_set, spec_obj_get, Value};
use crate::strmap::{seq_get, StrMap};
use crate::strutil::str_eq;

verus! {

/// The persisted override map, keyed by net id.
#[derive(Debug, Clone, PartialEq)]
pub struct SelectMap {
    pub map: StrMap<String>,
}

/// Some element of the array is the string `s`.
pub open spec fn spec_arr_has_str(items: Seq<Value>, s: Seq<char>) -> bool {
    exists|i: int| 0 <= i < items.len() && ((#[trigger] items[i]) matches Value::Str(t) && t@ == s)
}

/// The override names a child that the selector's declared list holds, so it
/// may be applied.
pub open spec fn override_applies(d: Net, chosen: Seq<char>) -> bool {
    &&& d.net_type@ == "select"@
    &&& d.opt is Obj
    &&& match spec_obj_get(d.opt->Obj_0@, "list"@) {
        Some(Value::Arr(items)) => spec_arr_has_str(items@, chosen),
        _ => false,
    }
}

/// `d2` is `d` with its selection overridden: same type, the `selected`
/// field now names the choice, and every other field is untouched.
pub open spec fn overridden_net(d: Net, chosen: Seq<char>, d2: Net) -> bool {
    &&& d2.net_type == d.net_type
    &&& d2.opt is Obj
    &&& (spec_obj_get(d2.opt->Obj_0@, "selected"@) matches Some(Value::Str(s)) && s@ == chosen)
    &&& (forall|k2: Seq<char>|
        k2 != "selected"@ ==> spec_obj_get(d2.opt->Obj_0@, k2) == spec_obj_get(
            d.opt->Obj_0@,
            k2,
        ))
}

/// Applies one override to the configuration: if the named net is a selector
/// whose declared list holds the choice, its `selected` field is replaced;
/// otherwise the configuration is left as it stands. No other net, and no
/// server, is touched.
fn apply_one(cfg: &mut Config, name: &str, chosen: &str)
    requires
        old(cfg).net.wf(),
    ensures
        final (cfg).net.wf(),
        final (cfg).server == old(cfg).server,
        final (cfg).id == old(cfg).id,
        forall|k: Seq<char>|
            k != name@ ==> #[trigger] final (cfg).net.spec_get(k) == old(cfg).net.spec_get(k),
        match old(cfg).net.spec_get(name@) {
            Some(d) => if override_applies(d, chosen@) {
                final (cfg).net.spec_get(name@) is Some && overridden_net(
                    d,
                    chosen@,
                    final (cfg).net.spec_get(name@)->0,
                )
            } else {
                final (cfg).net.spec_get(name@) == old(cfg).net.spec_get(name@)
            },
            None => final (cfg).net.spec_get(name@) is None,
        },
{
    let d = match cfg.net.remove(name) {
        Some(d) => d,
        None => {
            return ;
        }
    };
    let applies: bool = if !str_eq(d.net_type.as_str(), "select") {
        false
    } else {
        match &d.opt {
            Value::Obj(fields) => match obj_get(fields, "list") {
                Some(Value::Arr(items)) => {
                    let mut found = false;
                    let mut i: usize = 0;
                    while i < items.len()
                        invariant
                            0 <= i <= items@.len(),
                            found == spec_arr_has_str(items@.take(i as int), chosen@),
                        decreases items@.len() - i,
                    {
                        proof {
                            assert(items@.take(i as int + 1).drop_last() =~= items@.take(
                                i as int,
                            ));
                            assert(items@.take(i as int + 1).last() == items@[i as int]);
                            assert forall|j: int|
                                0 <= j < i + 1 implies #[trigger] items@.take(i as int + 1)[j]
                                == items@[j] by {}
                        }
                        match &items[i] {
                            Value::Str(t) => {
                                if str_eq(t.as_str(), chosen) {
                                    found = true;
                                }
                            }
                            _ => {}
                        }
                        proof {
                            if !found {
                                assert forall|j: int|
                                    0 <= j < i + 1 implies !((#[trigger] items@[j])
                                    matches Value::Str(t) && t@ == chosen@) by {
                                    if j < i {
                                        assert(items@.take(i as int)[j] == items@[j]);
                                    }
                                }
                                assert(!spec_arr_has_str(items@.take(i as int + 1), chosen@));
                            } else {
                                let w = choose|j: int|
                                    0 <= j < i + 1 && ((#[trigger] items@[j]) matches Value::Str(
                                        t,
                                    ) && t@ == chosen@);
                                assert(items@.take(i as int + 1)[w] == items@[w]);
                            }
                        }
                        i += 1;
                    }
                    proof {
                        assert(items@.take(items@.len() as int) =~= items@);
                    }
                    found
                }
                _ => false,
            },
            _ => false,
        }
    };
    if !applies {
        cfg.net.insert(name.to_owned(), d);
        return ;
    }
    let Net { net_type, opt } = d;
    let mut fields = match opt {
        Value::Obj(fields) => fields,
        _ => Vec::new(),
    };
    obj_set(&mut fields, "selected", Value::Str(chosen.to_owned()));
    cfg.net.insert(name.to_owned(), Net { net_type, opt: Value::Obj(fields) });
}

impl SelectMap {
    /// An empty override map.
    pub fn new() -> (r: Self)
        ensures
            r.map.wf(),
            r.map.entries@.len() == 0,
    {
        SelectMap { map: StrMap::new() }
    }

    /// Records a choice for a net, returning the choice it displaces.
    pub fn insert(&mut self, key: String, value: String) -> (old_v: Option<String>)
        requires
            old(self).map.wf(),
        ensures
            final (self).map.wf(),
            old_v == old(self).map.spec_get(key@),
            final (self).map.spec_get(key@) == Some(value),
            forall|k2: Seq<char>|
                k2 != key@ ==> final (self).map.spec_get(k2) == old(self).map.spec_get(k2),
    {
        self.map.insert(key, value)
    }

    /// Applies every persisted override to the configuration: a net that is a
    /// selector whose list still holds the recorded choice takes it; every
    /// other override is ignored. Nets without an override, and all servers,
    /// are untouched.
    pub fn apply_config(&self, cfg: &mut Config)
        requires
            old(cfg).net.wf(),
            self.map.wf(),
        ensures
            final (cfg).net.wf(),
            final (cfg).server == old(cfg).server,
            final (cfg).id == old(cfg).id,
            forall|k: Seq<char>|
                #[trigger] final (cfg).net.spec_get(k) == final (cfg).net.spec_get(k) && match self.map.spec_get(
                    k,
                ) {
                    None => final (cfg).net.spec_get(k) == old(cfg).net.spec_get(k),
                    Some(chosen) => match old(cfg).net.spec_get(k) {
                        Some(d) => if override_applies(d, chosen@) {
                            final (cfg).net.spec_get(k) is Some && overridden_net(
                                d,
                                chosen@,
                                final (cfg).net.spec_get(k)->0,
                            )
                        } else {
                            final (cfg).net.spec_get(k) == old(cfg).net.spec_get(k)
                        },
                        None => final (cfg).net.spec_get(k) is None,
                    },
                },
    {
        let ghost pre = *cfg;
        let ghost all = self.map.entries@;
        let mut i: usize = 0;
        proof {
            assert(all.take(0) =~= Seq::<(String, String)>::empty());
        }
        while i < self.map.entries.len()
            invariant
                0 <= i <= all.len(),
                all == self.map.entries@,
                self.map.wf(),
                cfg.net.wf(),
                cfg.server == pre.server,
                cfg.id == pre.id,
                forall|k: Seq<char>|
                    #[trigger] cfg.net.spec_get(k) == cfg.net.spec_get(k) && match seq_get(
                        all.take(i as int),
                        k,
                    ) {
                        None => cfg.net.spec_get(k) == pre.net.spec_get(k),
                        Some(chosen) => match pre.net.spec_get(k) {
                            Some(d) => if override_applies(d, chosen@) {
                                cfg.net.spec_get(k) is Some && overridden_net(
                                    d,
                                    chosen@,
                                    cfg.net.spec_get(k)->0,
                                )
                            } else {
                                cfg.net.spec_get(k) == pre.net.spec_get(k)
                            },
                            None => cfg.net.spec_get(k) is None,
                        },
                    },
            decreases all.len() - i,
        {
            let ghost entry = all[i as int];
            let name = &self.map.entries[i].0;
            let chosen = &self.map.entries[i].1;
            proof {
                assert forall|j: int| 0 <= j < i implies all.take(i as int)[j].0@ != name@ by {
                    assert(all.take(i as int)[j] == all[j]);
                }
                crate::strmap::lemma_seq_get_absent(all.take(i as int), name@);
            }
            apply_one(cfg, name.as_str(), chosen.as_str());
            proof {
                let t0 = i as int;
                let t1 = i as int + 1;
                assert(all.take(t1) =~= all.take(t0).push(entry));
                assert forall|k2: Seq<char>| true implies #[trigger] cfg.net.spec_get(k2)
                    == cfg.net.spec_get(k2) && match seq_get(all.take(t1), k2) {
                    None => cfg.net.spec_get(k2) == pre.net.spec_get(k2),
                    Some(chosen2) => match pre.net.spec_get(k2) {
                        Some(d) => if override_applies(d, chosen2@) {
                            cfg.net.spec_get(k2) is Some && overridden_net(
                                d,
                                chosen2@,
                                cfg.net.spec_get(k2)->0,
                            )
                        } else {
                            cfg.net.spec_get(k2) == pre.net.spec_get(k2)
                        },
                        None => cfg.net.spec_get(k2) is None,
                    },
                } by {
                    crate::strmap::lemma_seq_get_push(all.take(t0), entry, k2);
                }
            }
            i += 1;
        }
        proof {
            assert(all.take(all.len() as int) =~= all);
        }
    }
}

} // verus!

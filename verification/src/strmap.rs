//! An association map with string keys, used for the configuration's net and
//! server tables, the running graph, the registry and the storage index.
//!
//! Entries keep their insertion order; keys are unique.

use vstd::prelude::*;

use crate::strutil::str_eq;

verus! {

/// The value of the first entry whose key reads `k`, if any.
pub open spec fn seq_get<V>(s: Seq<(String, V)>, k: Seq<char>) -> Option<V>
    decreases s.len(),
{
    if s.len() == 0 {
        None
    } else if s[0].0@ == k {
        Some(s[0].1)
    } else {
        seq_get(s.skip(1), k)
    }
}

/// All entry keys differ pairwise.
pub open spec fn keys_unique<V>(s: Seq<(String, V)>) -> bool {
    forall|i: int, j: int| 0 <= i < j < s.len() ==> s[i].0@ != s[j].0@
}

/// No entry carries the key `k`.
pub open spec fn key_absent<V>(s: Seq<(String, V)>, k: Seq<char>) -> bool {
    forall|i: int| 0 <= i < s.len() ==> s[i].0@ != k
}

pub proof fn lemma_seq_get_present<V>(s: Seq<(String, V)>, i: int, k: Seq<char>)
    requires
        0 <= i < s.len(),
        s[i].0@ == k,
        forall|j: int| 0 <= j < i ==> s[j].0@ != k,
    ensures
        seq_get(s, k) == Some(s[i].1),
    decreases s.len(),
{
    if i > 0 {
        assert(s.skip(1)[i - 1] == s[i]);
        assert forall|j: int| 0 <= j < i - 1 implies s.skip(1)[j].0@ != k by {
            assert(s.skip(1)[j] == s[j + 1]);
        }
        lemma_seq_get_present(s.skip(1), i - 1, k);
    }
}

pub proof fn lemma_seq_get_absent<V>(s: Seq<(String, V)>, k: Seq<char>)
    requires
        key_absent(s, k),
    ensures
        seq_get(s, k) is None,
    decreases s.len(),
{
    if s.len() > 0 {
        assert forall|j: int| 0 <= j < s.skip(1).len() implies s.skip(1)[j].0@ != k by {
            assert(s.skip(1)[j] == s[j + 1]);
        }
        lemma_seq_get_absent(s.skip(1), k);
    }
}

pub proof fn lemma_seq_get_push<V>(s: Seq<(String, V)>, p: (String, V), k: Seq<char>)
    ensures
        seq_get(s.push(p), k) == if seq_get(s, k) is Some {
            seq_get(s, k)
        } else if p.0@ == k {
            Some(p.1)
        } else {
            None
        },
    decreases s.len(),
{
    let t = s.push(p);
    if s.len() == 0 {
        assert(t.len() == 1);
        assert(t[0] == p);
        assert(t.skip(1) =~= Seq::<(String, V)>::empty());
        if p.0@ == k {
            assert(seq_get(t, k) == Some(p.1));
        } else {
            assert(seq_get(t, k) == seq_get(t.skip(1), k));
            assert(seq_get(t.skip(1), k) is None);
        }
        assert(seq_get(s, k) is None);
    } else {
        assert(t[0] == s[0]);
        if s[0].0@ == k {
            assert(seq_get(t, k) == Some(s[0].1));
            assert(seq_get(s, k) == Some(s[0].1));
        } else {
            assert(t.skip(1) =~= s.skip(1).push(p));
            lemma_seq_get_push(s.skip(1), p, k);
            assert(seq_get(t, k) == seq_get(t.skip(1), k));
            assert(seq_get(s, k) == seq_get(s.skip(1), k));
        }
    }
}

pub proof fn lemma_seq_get_remove<V>(s: Seq<(String, V)>, i: int, k: Seq<char>)
    requires
        0 <= i < s.len(),
        keys_unique(s),
    ensures
        seq_get(s.remove(i), k) == if s[i].0@ == k {
            None::<V>
        } else {
            seq_get(s, k)
        },
    decreases s.len(),
{
    let t = s.remove(i);
    if i == 0 {
        assert(t =~= s.skip(1));
        if s[0].0@ == k {
            assert forall|j: int| 0 <= j < t.len() implies t[j].0@ != k by {
                assert(t[j] == s[j + 1]);
            }
            lemma_seq_get_absent(t, k);
        }
    } else {
        assert(t[0] == s[0]);
        if s[0].0@ == k {
            if s[i].0@ == k {
                assert(s[0].0@ == s[i].0@);
                assert(false);
            }
        } else {
            assert(t.skip(1) =~= s.skip(1).remove(i - 1));
            assert forall|a: int, b: int| 0 <= a < b < s.skip(1).len() implies s.skip(1)[a].0@
                != s.skip(1)[b].0@ by {
                assert(s.skip(1)[a] == s[a + 1]);
                assert(s.skip(1)[b] == s[b + 1]);
            }
            assert(s.skip(1)[i - 1] == s[i]);
            lemma_seq_get_remove(s.skip(1), i - 1, k);
        }
    }
}

/// An insertion-ordered map from string keys to values of type `V`.
#[derive(Debug, Clone, PartialEq)]
pub struct StrMap<V> {
    pub entries: Vec<(String, V)>,
}

impl<V> StrMap<V> {
    /// The value stored under key `k`, if any.
    pub open spec fn spec_get(&self, k: Seq<char>) -> Option<V> {
        seq_get(self.entries@, k)
    }

    /// Whether key `k` is present.
    pub open spec fn spec_contains(&self, k: Seq<char>) -> bool {
        self.spec_get(k) is Some
    }

    /// Well-formed: keys are unique.
    pub open spec fn wf(&self) -> bool {
        keys_unique(self.entries@)
    }

    /// An empty map.
    pub fn new() -> (r: Self)
        ensures
            r.wf(),
            r.entries@.len() == 0,
            forall|k: Seq<char>| r.spec_get(k) is None,
    {
        let r = StrMap { entries: Vec::new() };
        proof {
            assert forall|k: Seq<char>| r.spec_get(k) is None by {
                lemma_seq_get_absent(r.entries@, k);
            }
        }
        r
    }

    /// The number of entries.
    pub fn len(&self) -> (n: usize)
        ensures
            n == self.entries@.len(),
    {
        self.entries.len()
    }

    /// The position of the first entry keyed `k`, if any.
    fn find(&self, k: &str) -> (r: Option<usize>)
        ensures
            match r {
                Some(i) => i < self.entries@.len() && self.entries@[i as int].0@ == k@
                    && (forall|j: int| 0 <= j < i ==> self.entries@[j].0@ != k@),
                None => key_absent(self.entries@, k@),
            },
    {
        let mut i: usize = 0;
        while i < self.entries.len()
            invariant
                0 <= i <= self.entries@.len(),
                forall|j: int| 0 <= j < i ==> self.entries@[j].0@ != k@,
            decreases self.entries@.len() - i,
        {
            if str_eq(self.entries[i].0.as_str(), k) {
                return Some(i);
            }
            i += 1;
        }
        None
    }

    /// Looks a key up.
    pub fn get<'a>(&'a self, k: &str) -> (r: Option<&'a V>)
        ensures
            match r {
                Some(v) => self.spec_get(k@) == Some(*v),
                None => self.spec_get(k@) is None,
            },
    {
        match self.find(k) {
            Some(i) => {
                proof {
                    lemma_seq_get_present(self.entries@, i as int, k@);
                }
                Some(&self.entries[i].1)
            }
            None => {
                proof {
                    lemma_seq_get_absent(self.entries@, k@);
                }
                None
            }
        }
    }

    /// Whether the map holds key `k`.
    pub fn contains_key(&self, k: &str) -> (r: bool)
        ensures
            r == self.spec_contains(k@),
    {
        match self.get(k) {
            Some(_) => true,
            None => false,
        }
    }

    /// Binds `k` to `v`, returning the value it displaced, if any. A
    /// displaced key moves to the end of the entry order.
    pub fn insert(&mut self, k: String, v: V) -> (old_v: Option<V>)
        requires
            old(self).wf(),
        ensures
            final(self).wf(),
            old_v == old(self).spec_get(k@),
            final(self).spec_get(k@) == Some(v),
            forall|k2: Seq<char>| k2 != k@ ==> final(self).spec_get(k2) == old(self).spec_get(k2),
    {
        let found = self.find(k.as_str());
        match found {
            Some(i) => {
                proof {
                    lemma_seq_get_present(self.entries@, i as int, k@);
                }
                let ghost before = self.entries@;
                let pair = self.entries.remove(i);
                let ghost mid = self.entries@;
                self.entries.push((k, v));
                proof {
                    assert forall|k2: Seq<char>| true implies #[trigger] seq_get(mid, k2)
                        == if before[i as int].0@ == k2 {
                        None::<V>
                    } else {
                        seq_get(before, k2)
                    } by {
                        lemma_seq_get_remove(before, i as int, k2);
                    }
                    assert forall|k2: Seq<char>| true implies #[trigger] seq_get(
                        self.entries@,
                        k2,
                    ) == if seq_get(mid, k2) is Some {
                        seq_get(mid, k2)
                    } else if k@ == k2 {
                        Some(v)
                    } else {
                        None::<V>
                    } by {
                        lemma_seq_get_push(mid, self.entries@.last(), k2);
                        assert(self.entries@.last() == (self.entries@[self.entries@.len() - 1]));
                    }
                    assert(key_absent(mid, k@));
                    lemma_seq_get_absent(mid, k@);
                    assert forall|a: int, b: int|
                        0 <= a < b < self.entries@.len() implies self.entries@[a].0@
                        != self.entries@[b].0@ by {
                        if b < self.entries@.len() - 1 {
                            assert(self.entries@[a] == mid[a]);
                            assert(self.entries@[b] == mid[b]);
                        } else {
                            assert(self.entries@[a] == mid[a]);
                            lemma_seq_get_present(mid, a, mid[a].0@);
                        }
                    }
                }
                Some(pair.1)
            }
            None => {
                proof {
                    lemma_seq_get_absent(self.entries@, k@);
                }
                let ghost before = self.entries@;
                self.entries.push((k, v));
                proof {
                    assert forall|k2: Seq<char>| true implies #[trigger] seq_get(
                        self.entries@,
                        k2,
                    ) == if seq_get(before, k2) is Some {
                        seq_get(before, k2)
                    } else if k@ == k2 {
                        Some(v)
                    } else {
                        None::<V>
                    } by {
                        lemma_seq_get_push(before, self.entries@.last(), k2);
                        assert(self.entries@.last() == self.entries@[self.entries@.len() - 1]);
                    }
                    assert forall|k2: Seq<char>| key_absent(before, k2) implies seq_get(
                        before,
                        k2,
                    ) is None by {
                        lemma_seq_get_absent(before, k2);
                    }
                    assert forall|a: int, b: int|
                        0 <= a < b < self.entries@.len() implies self.entries@[a].0@
                        != self.entries@[b].0@ by {
                        if b < self.entries@.len() - 1 {
                            assert(self.entries@[a] == before[a]);
                            assert(self.entries@[b] == before[b]);
                        } else {
                            assert(self.entries@[a] == before[a]);
                        }
                    }
                }
                None
            }
        }
    }

    /// Removes the binding of `k`, returning its value, if any.
    pub fn remove(&mut self, k: &str) -> (old_v: Option<V>)
        requires
            old(self).wf(),
        ensures
            final(self).wf(),
            old_v == old(self).spec_get(k@),
            final(self).spec_get(k@) is None,
            forall|k2: Seq<char>| k2 != k@ ==> final(self).spec_get(k2) == old(self).spec_get(k2),
    {
        let found = self.find(k);
        match found {
            Some(i) => {
                proof {
                    lemma_seq_get_present(self.entries@, i as int, k@);
                }
                let ghost before = self.entries@;
                let pair = self.entries.remove(i);
                proof {
                    assert forall|k2: Seq<char>| true implies #[trigger] seq_get(
                        self.entries@,
                        k2,
                    ) == if before[i as int].0@ == k2 {
                        None::<V>
                    } else {
                        seq_get(before, k2)
                    } by {
                        lemma_seq_get_remove(before, i as int, k2);
                    }
                    assert forall|a: int, b: int|
                        0 <= a < b < self.entries@.len() implies self.entries@[a].0@
                        != self.entries@[b].0@ by {
                        let a0 = if a < i { a } else { a + 1 };
                        let b0 = if b < i { b } else { b + 1 };
                        assert(self.entries@[a] == before[a0]);
                        assert(self.entries@[b] == before[b0]);
                    }
                }
                Some(pair.1)
            }
            None => {
                proof {
                    lemma_seq_get_absent(self.entries@, k@);
                }
                None
            }
        }
    }

    /// Drops every entry.
    pub fn clear(&mut self)
        ensures
            final(self).wf(),
            final(self).entries@.len() == 0,
            forall|k: Seq<char>| final(self).spec_get(k) is None,
    {
        self.entries = Vec::new();
        proof {
            assert forall|k: Seq<char>| self.spec_get(k) is None by {
                lemma_seq_get_absent(self.entries@, k);
            }
        }
    }

    /// The keys, in entry order.
    pub fn keys(&self) -> (r: Vec<String>)
        ensures
            r@.len() == self.entries@.len(),
            forall|i: int| 0 <= i < r@.len() ==> r@[i]@ == self.entries@[i].0@,
    {
        let mut out: Vec<String> = Vec::new();
        let mut i: usize = 0;
        while i < self.entries.len()
            invariant
                0 <= i <= self.entries@.len(),
                out@.len() == i,
                forall|j: int| 0 <= j < i ==> out@[j]@ == self.entries@[j].0@,
            decreases self.entries@.len() - i,
        {
            out.push(self.entries[i].0.clone());
            i += 1;
        }
        out
    }

    /// A key present in the map is one of its entries.
    pub proof fn lemma_contains_index(&self, k: Seq<char>)
        requires
            self.spec_contains(k),
        ensures
            exists|i: int|
                0 <= i < self.entries@.len() && self.entries@[i].0@ == k && self.entries@[i].1
                    == self.spec_get(k)->0,
        decreases self.entries@.len(),
    {
        reveal_with_fuel(seq_get, 2);
        if self.entries@.len() > 0 {
            if self.entries@[0].0@ == k {
                assert(self.entries@[0].0@ == k && self.entries@[0].1 == self.spec_get(k)->0);
            } else {
                let tail = StrMap::<V> { entries: self.entries }.entries@.skip(1);
                let sub = Self { entries: self.entries };
                assert(seq_get(self.entries@.skip(1), k) == self.spec_get(k));
                lemma_tail_contains_index(self.entries@, k);
            }
        }
    }
}

proof fn lemma_tail_contains_index<V>(s: Seq<(String, V)>, k: Seq<char>)
    requires
        seq_get(s, k) is Some,
    ensures
        exists|i: int| 0 <= i < s.len() && s[i].0@ == k && s[i].1 == seq_get(s, k)->0,
    decreases s.len(),
{
    if s.len() > 0 {
        if s[0].0@ == k {
            assert(0 <= 0 < s.len() && s[0].0@ == k && s[0].1 == seq_get(s, k)->0);
        } else {
            lemma_tail_contains_index(s.skip(1), k);
            let i = choose|i: int|
                0 <= i < s.skip(1).len() && s.skip(1)[i].0@ == k && s.skip(1)[i].1 == seq_get(
                    s.skip(1),
                    k,
                )->0;
            assert(s[i + 1] == s.skip(1)[i]);
        }
    }
}

} // verus!

//! Key/value storage: blobs with a modification timestamp. The in-memory
//! variant is the verified model; the on-disk variant wraps it with file I/O
//! outside the library.

use vstd::prelude::*;

use crate::strmap::StrMap;

verus! {

/// One stored blob and when it was last written.
#[derive(Debug, Clone, PartialEq)]
pub struct StorageItem {
    pub updated_at: u64,
    pub content: String,
}

/// A key listing entry.
#[derive(Debug, Clone, PartialEq)]
pub struct StorageKey {
    pub key: String,
    pub updated_at: u64,
}

/// In-memory storage.
#[derive(Debug, Clone, PartialEq)]
pub struct MemoryStorage {
    pub items: StrMap<StorageItem>,
}

impl MemoryStorage {
    /// An empty store.
    pub fn new() -> (r: Self)
        ensures
            r.items.wf(),
            r.items.entries@.len() == 0,
            forall|k: Seq<char>| r.items.spec_get(k) is None,
    {
        MemoryStorage { items: StrMap::new() }
    }

    /// Reads a blob.
    pub fn get(&self, key: &str) -> (r: Option<&StorageItem>)
        ensures
            match r {
                Some(item) => self.items.spec_get(key@) == Some(*item),
                None => self.items.spec_get(key@) is None,
            },
    {
        self.items.get(key)
    }

    /// When a blob was last written, if it exists.
    pub fn get_updated_at(&self, key: &str) -> (r: Option<u64>)
        ensures
            r == match self.items.spec_get(key@) {
                Some(item) => Some(item.updated_at),
                None => None::<u64>,
            },
    {
        match self.items.get(key) {
            Some(item) => Some(item.updated_at),
            None => None,
        }
    }

    /// Writes a blob, stamping it with the given time.
    pub fn set(&mut self, key: String, value: String, now: u64)
        requires
            old(self).items.wf(),
        ensures
            final (self).items.wf(),
            final (self).items.spec_get(key@) == Some(StorageItem { updated_at: now, content: value }),
            forall|k: Seq<char>|
                k != key@ ==> final (self).items.spec_get(k) == old(self).items.spec_get(k),
    {
        self.items.insert(key, StorageItem { updated_at: now, content: value });
    }

    /// Removes a blob. Removing an absent key changes nothing.
    pub fn remove(&mut self, key: &str)
        requires
            old(self).items.wf(),
        ensures
            final (self).items.wf(),
            final (self).items.spec_get(key@) is None,
            forall|k: Seq<char>|
                k != key@ ==> final (self).items.spec_get(k) == old(self).items.spec_get(k),
    {
        self.items.remove(key);
    }

    /// Drops every blob.
    pub fn clear(&mut self)
        ensures
            final (self).items.wf(),
            final (self).items.entries@.len() == 0,
            forall|k: Seq<char>| final (self).items.spec_get(k) is None,
    {
        self.items.clear();
    }

    /// Every key with its timestamp, in entry order.
    pub fn keys(&self) -> (r: Vec<StorageKey>)
        ensures
            r@.len() == self.items.entries@.len(),
            forall|i: int|
                0 <= i < r@.len() ==> (#[trigger] r@[i]).key@ == self.items.entries@[i].0@
                    && r@[i].updated_at == self.items.entries@[i].1.updated_at,
    {
        let mut out: Vec<StorageKey> = Vec::new();
        let mut i: usize = 0;
        while i < self.items.entries.len()
            invariant
                0 <= i <= self.items.entries@.len(),
                out@.len() == i,
                forall|j: int|
                    0 <= j < i ==> (#[trigger] out@[j]).key@ == self.items.entries@[j].0@
                        && out@[j].updated_at == self.items.entries@[j].1.updated_at,
            decreases self.items.entries@.len() - i,
        {
            let e = &self.items.entries[i];
            out.push(StorageKey { key: e.0.clone(), updated_at: e.1.updated_at });
            i += 1;
        }
        out
    }
}

/// Strips a byte-order mark from the start of a text blob.
pub fn strip_bom(s: &str) -> (r: String)
    ensures
        r@ == if s@.len() > 0 && s@[0] == '\u{feff}' {
            s@.skip(1)
        } else {
            s@
        },
{
    let n = s.unicode_len();
    if n > 0 && s.get_char(0) == '\u{feff}' {
        let rest = s.substring_char(1, n);
        proof {
            assert(rest@ =~= s@.skip(1));
        }
        rest.to_owned()
    } else {
        s.to_owned()
    }
}

} // verus!

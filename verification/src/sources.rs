//! Import sources: where configuration text comes from — a file, a polled
//! URL, a named store, or inline text — with the caching and waiting rules.
//!
//! Fetching itself is I/O and stays outside the library; the decisions of
//! when to use the cache, what to cache, and how long to wait are here.

use vstd::prelude::*;

use crate::json::Value;
use crate::storage::StorageItem;
use crate::strutil::{concat2, concat3, push_str};
use crate::Error;

verus! {

/// A polled URL, refreshed every `interval` seconds when one is given.
#[derive(Debug, Clone, PartialEq)]
pub struct ImportUrl {
    pub url: String,
    pub interval: Option<u64>,
}

/// A key in a named on-disk store.
#[derive(Debug, Clone, PartialEq)]
pub struct ImportStorage {
    pub folder: String,
    pub key: String,
}

/// Where configuration text comes from.
#[derive(Debug, Clone, PartialEq)]
pub enum ImportSource {
    Path(String),
    Poll(ImportUrl),
    Storage(ImportStorage),
    Text(String),
}

/// One import block of a configuration document.
#[derive(Debug, Clone, PartialEq)]
pub struct Import {
    pub name: Option<String>,
    pub format: String,
    pub source: ImportSource,
    pub opt: Value,
}

/// The stable cache key of a source; it doubles as the configuration id, so
/// an identical source keeps its persisted selector overrides.
pub open spec fn spec_cache_key(s: ImportSource) -> Seq<char> {
    match s {
        ImportSource::Path(p) => "path:"@ + p@,
        ImportSource::Poll(u) => "poll:"@ + u.url@,
        ImportSource::Storage(st) => "storage:"@ + st.folder@ + ":"@ + st.key@,
        ImportSource::Text(_) => "text"@,
    }
}

impl ImportSource {
    /// A file source.
    pub fn new_path(path: String) -> (r: Self)
        ensures
            r == ImportSource::Path(path),
    {
        ImportSource::Path(path)
    }

    /// A polled URL source.
    pub fn new_poll(url: String, interval: Option<u64>) -> (r: Self)
        ensures
            r == ImportSource::Poll(ImportUrl { url, interval }),
    {
        ImportSource::Poll(ImportUrl { url, interval })
    }

    /// The source's stable cache key.
    pub fn cache_key(&self) -> (r: String)
        ensures
            r@ == spec_cache_key(*self),
    {
        match self {
            ImportSource::Path(p) => concat2("path:", p.as_str()),
            ImportSource::Poll(u) => concat2("poll:", u.url.as_str()),
            ImportSource::Storage(st) => {
                let mut s = concat3("storage:", st.folder.as_str(), ":");
                push_str(&mut s, st.key.as_str());
                s
            }
            ImportSource::Text(_) => "text".to_owned(),
        }
    }

    /// How long cached content stays fresh, in seconds: only polled sources
    /// with an interval expire.
    pub fn get_expire_duration(&self) -> (r: Option<u64>)
        ensures
            r == match *self {
                ImportSource::Poll(u) => u.interval,
                _ => None::<u64>,
            },
    {
        match self {
            ImportSource::Poll(u) => u.interval,
            _ => None,
        }
    }
}

/// What to do to obtain a source's content, given what the cache holds.
#[derive(Debug, Clone, PartialEq)]
pub enum ContentStep {
    /// The cache holds fresh, non-empty content: use it without touching the
    /// network or the disk.
    UseCached(String),
    /// Read the file at this path.
    ReadFile(String),
    /// Fetch the polled URL.
    Fetch(String),
    /// Read this key from this named store.
    ReadStorage(String, String),
    /// The source is inline text.
    UseText(String),
}

/// The cached content may be used: it is non-empty and not expired.
pub open spec fn spec_cache_usable(s: ImportSource, item: StorageItem, now: u64) -> bool {
    &&& item.content@.len() != 0
    &&& match s {
        ImportSource::Poll(u) => match u.interval {
            Some(iv) => now < item.updated_at + iv,
            None => true,
        },
        _ => true,
    }
}

impl ImportSource {
    /// Decides how to obtain this source's content: fresh, non-empty cached
    /// content wins; otherwise the source itself is consulted.
    pub fn content_step(&self, cached: Option<&StorageItem>, now: u64) -> (r: ContentStep)
        ensures
            match cached {
                Some(item) => if spec_cache_usable(*self, *item, now) {
                    r matches ContentStep::UseCached(c) && c@ == item.content@
                } else {
                    content_step_fresh(*self, r)
                },
                None => content_step_fresh(*self, r),
            },
    {
        if let Some(item) = cached {
            let usable = if item.content.as_str().is_empty() {
                false
            } else {
                match self {
                    ImportSource::Poll(u) => match u.interval {
                        Some(iv) => if iv <= u64::MAX - item.updated_at {
                            now < item.updated_at + iv
                        } else {
                            true
                        },
                        None => true,
                    },
                    _ => true,
                }
            };
            if usable {
                return ContentStep::UseCached(item.content.clone());
            }
        }
        match self {
            ImportSource::Path(p) => ContentStep::ReadFile(p.clone()),
            ImportSource::Poll(u) => ContentStep::Fetch(u.url.clone()),
            ImportSource::Storage(st) => ContentStep::ReadStorage(st.folder.clone(), st.key.clone()),
            ImportSource::Text(t) => ContentStep::UseText(t.clone()),
        }
    }
}

/// The step that consults the source itself, by source kind.
pub open spec fn content_step_fresh(s: ImportSource, r: ContentStep) -> bool {
    match s {
        ImportSource::Path(p) => r matches ContentStep::ReadFile(q) && q@ == p@,
        ImportSource::Poll(u) => r matches ContentStep::Fetch(q) && q@ == u.url@,
        ImportSource::Storage(st) => r matches ContentStep::ReadStorage(f, k) && f@ == st.folder@
            && k@ == st.key@,
        ImportSource::Text(t) => r matches ContentStep::UseText(q) && q@ == t@,
    }
}

/// Settles a poll's outcome: a fetched body is used, and cached only when it
/// is not empty (an empty body never overwrites the cache); a failed fetch
/// falls back to the cached content without touching the cache, and fails
/// only when there is none.
pub fn poll_outcome(fetched: Option<String>, cached: Option<&StorageItem>) -> (r: Result<
    (String, bool),
    Error,
>)
    ensures
        match fetched {
            Some(body) => r matches Ok((c, cache_it)) && c@ == body@ && cache_it == (body@.len()
                != 0),
            None => match cached {
                Some(item) => r matches Ok((c, cache_it)) && c@ == item.content@ && !cache_it,
                None => r matches Err(e) && e matches Error::Upstream(_),
            },
        },
{
    match fetched {
        Some(body) => {
            let nonempty = !body.as_str().is_empty();
            Ok((body, nonempty))
        }
        None => match cached {
            Some(item) => Ok((item.content.clone(), false)),
            None => Err(Error::Upstream("fetch failed and no cached content".to_owned())),
        },
    }
}

/// How to wait for a source to change.
#[derive(Debug, Clone, PartialEq)]
pub enum WaitPlan {
    /// Watch this file path for changes.
    WatchPath(String),
    /// Watch this key of this named store.
    WatchStorage(String, String),
    /// Wake at this time (seconds).
    SleepUntil(u64),
    /// Return at once.
    Immediate,
    /// Never complete.
    Never,
}

impl ImportSource {
    /// Decides how to wait for this source: files and stores are watched;
    /// inline text never changes; a polled source sleeps until its interval
    /// after the last visit or update, waits forever without an interval, and
    /// returns at once when it was never visited.
    pub fn wait_plan(&self, visited_at: Option<u64>, updated_at: Option<u64>) -> (r: WaitPlan)
        ensures
            r == match *self {
                ImportSource::Path(p) => WaitPlan::WatchPath(p),
                ImportSource::Storage(st) => WaitPlan::WatchStorage(st.folder, st.key),
                ImportSource::Text(_) => WaitPlan::Never,
                ImportSource::Poll(u) => {
                    let time: Option<u64> = match (visited_at, updated_at) {
                        (Some(a), Some(b)) => Some(if a >= b {
                            a
                        } else {
                            b
                        }),
                        (Some(t), None) => Some(t),
                        (None, Some(t)) => Some(t),
                        (None, None) => None,
                    };
                    match (time, u.interval) {
                        (None, _) => WaitPlan::Immediate,
                        (Some(_), None) => WaitPlan::Never,
                        (Some(t), Some(iv)) => WaitPlan::SleepUntil(
                            if t + iv <= u64::MAX {
                                (t + iv) as u64
                            } else {
                                u64::MAX
                            },
                        ),
                    }
                },
            },
    {
        match self {
            ImportSource::Path(p) => WaitPlan::WatchPath(p.clone()),
            ImportSource::Storage(st) => WaitPlan::WatchStorage(st.folder.clone(), st.key.clone()),
            ImportSource::Text(_) => WaitPlan::Never,
            ImportSource::Poll(u) => {
                let time: Option<u64> = match (visited_at, updated_at) {
                    (Some(a), Some(b)) => Some(if a >= b {
                        a
                    } else {
                        b
                    }),
                    (Some(t), None) => Some(t),
                    (None, Some(t)) => Some(t),
                    (None, None) => None,
                };
                match (time, u.interval) {
                    (None, _) => WaitPlan::Immediate,
                    (Some(_), None) => WaitPlan::Never,
                    (Some(t), Some(iv)) => WaitPlan::SleepUntil(saturating_add_u64(t, iv)),
                }
            }
        }
    }
}

/// The retry rule for a fetch: a failed attempt is repeated while attempts
/// remain; a success, or running out of attempts, ends the loop with the last
/// outcome.
pub fn retry_decision(attempt: u64, times: u64, succeeded: bool) -> (again: bool)
    ensures
        again == (!succeeded && attempt + 1 < times),
{
    !succeeded && attempt < u64::MAX && attempt + 1 < times
}

/// Adds, saturating at the top of the range.
fn saturating_add_u64(a: u64, b: u64) -> (r: u64)
    ensures
        r == if a + b <= u64::MAX {
            (a + b) as u64
        } else {
            u64::MAX
        },
{
    if b <= u64::MAX - a {
        a + b
    } else {
        u64::MAX
    }
}

} // verus!

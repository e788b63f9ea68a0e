//! The cache of gathered host information, which gives the dashboard something
//! to show before the hosts have answered.

use std::time::UNIX_EPOCH;

use vstd::prelude::*;

use crate::apt::{HostInfo, HostInfoView};
use crate::config::{HostConfig, HostConfigView};
use crate::table::Table;
use crate::text;

verus! {

/// A previously gathered `HostInfo`, persisted to disk so the TUI has
/// something to show immediately on startup instead of a blank "gathering…"
/// state while the real SSH gather is still in flight.
#[derive(Debug)]
pub struct CacheEntry {
    pub info: HostInfo,
    pub fetched_at_unix: u64,
}

pub struct CacheEntryView {
    pub info: HostInfoView,
    pub fetched_at_unix: u64,
}

impl DeepView for CacheEntry {
    type V = CacheEntryView;

    open spec fn deep_view(&self) -> CacheEntryView {
        CacheEntryView { info: self.info.deep_view(), fetched_at_unix: self.fetched_at_unix }
    }
}

impl Clone for CacheEntry {
    fn clone(&self) -> (r: Self)
        ensures
            r.deep_view() == self.deep_view(),
    {
        CacheEntry { info: self.info.clone(), fetched_at_unix: self.fetched_at_unix }
    }
}

pub type Cache = Table<CacheEntry>;

/// `user@hostname:port`.
pub open spec fn key_of(cfg: HostConfigView) -> Seq<char> {
    cfg.user + "@"@ + cfg.hostname + ":"@ + text::decimal(cfg.port as nat)
}

/// Key identifying a host's cache entry independent of its position in the
/// config file, so reordering groups/hosts doesn't invalidate the cache.
pub fn host_key(cfg: &HostConfig) -> (r: String)
    ensures
        r@ == key_of(cfg.deep_view()),
{
    let mut r = cfg.user.clone();
    r.append("@");
    r.append(cfg.hostname.as_str());
    r.append(":");
    r.append(text::number(cfg.port as u64).as_str());
    r
}

/// Calls `SystemTime::elapsed` on the Unix epoch: the seconds since then, or
/// `None` where the clock stands before it. Nothing is said of the time.
#[verifier::external_body]
fn elapsed_since_epoch() -> Option<u64> {
    UNIX_EPOCH.elapsed().ok().map(|d| d.as_secs())
}

/// The time that a clock reading stands for; 0 where there is none.
pub fn reading_or_zero(reading: Option<u64>) -> (r: u64)
    ensures
        r == (match reading {
            Some(seconds) => seconds,
            None => 0,
        }),
{
    match reading {
        Some(seconds) => seconds,
        None => 0,
    }
}

/// The current time in seconds since the Unix epoch.
pub fn now_unix() -> u64 {
    reading_or_zero(elapsed_since_epoch())
}

// ── Entries ──────────────────────────────────────────────────────────────────

/// The cache that a list of entries stands for; of two entries for one host,
/// the later counts.
pub open spec fn restored(entries: Seq<(Seq<char>, CacheEntryView)>) -> Map<
    Seq<char>,
    CacheEntryView,
>
    decreases entries.len(),
{
    if entries.len() == 0 {
        Map::empty()
    } else {
        restored(entries.drop_last()).insert(entries.last().0, entries.last().1)
    }
}

/// The entries are those of the cache, one for each host.
pub open spec fn lists(
    entries: Seq<(Seq<char>, CacheEntryView)>,
    cache: Map<Seq<char>, CacheEntryView>,
) -> bool {
    &&& forall|i: int|
        0 <= i < entries.len() ==> cache.contains_key((#[trigger] entries[i]).0)
            && cache[entries[i].0] == entries[i].1
    &&& forall|k: Seq<char>| #[trigger]
        cache.contains_key(k) ==> exists|i: int|
            0 <= i < entries.len() && (#[trigger] entries[i]).0 == k
    &&& forall|i: int, j: int|
        0 <= i < j < entries.len() ==> (#[trigger] entries[i]).0 != (#[trigger] entries[j]).0
}

/// The cache that was stored. It is empty where nothing could be read (missing
/// file, corrupt contents, permissions, …) — this is purely a startup
/// convenience and never a source of truth.
pub fn load(stored: Option<Vec<(String, CacheEntry)>>) -> (r: Cache)
    ensures
        r.deep_view() == (match stored {
            Some(entries) => restored(entries.deep_view()),
            None => Map::empty(),
        }),
{
    let mut cache: Cache = Cache::new();
    assert(cache.deep_view() =~= Map::empty());
    if let Some(entries) = stored {
        let ghost all = entries.deep_view();
        let n: usize = entries.len();
        let mut i: usize = 0;
        while i < n
            invariant
                n == entries@.len(),
                all == entries.deep_view(),
                i <= n,
                cache.deep_view() == restored(all.take(i as int)),
            decreases n - i,
        {
            let ghost before = cache.deep_view();
            let entry = entries[i].1.clone();
            let ghost ev = entry.deep_view();
            cache.insert(entries[i].0.clone(), entry);
            proof {
                assert(all[i as int] == (entries@[i as int].0@, ev));
                assert(cache.deep_view() =~= before.insert(all[i as int].0, ev));
                assert(all.take(i + 1).drop_last() =~= all.take(i as int));
                assert(all.take(i + 1).last() == all[i as int]);
            }
            i += 1;
        }
        assert(all.take(n as int) =~= all);
    }
    cache
}

/// The entries to store.
pub fn save(cache: &Cache) -> (r: Vec<(String, CacheEntry)>)
    ensures
        lists(r.deep_view(), cache.deep_view()),
{
    let entries = cache.entries();
    let n: usize = entries.len();
    let mut r: Vec<(String, CacheEntry)> = Vec::new();
    let mut i: usize = 0;
    while i < n
        invariant
            n == entries@.len(),
            i <= n,
            r@.len() == i,
            forall|j: int|
                0 <= j < i ==> (#[trigger] r@[j]).0@ == entries@[j].0@ && r@[j].1.deep_view()
                    == entries@[j].1.deep_view(),
        decreases n - i,
    {
        r.push((entries[i].0.clone(), entries[i].1.clone()));
        i += 1;
    }
    proof {
        let listed = r.deep_view();
        let c = cache.deep_view();
        assert forall|i: int| 0 <= i < listed.len() implies c.contains_key((#[trigger] listed[i]).0)
            && c[listed[i].0] == listed[i].1 by {
            assert(listed[i].0 == entries@[i].0@);
        }
        assert forall|k: Seq<char>| #[trigger] c.contains_key(k) implies exists|i: int|
            0 <= i < listed.len() && (#[trigger] listed[i]).0 == k by {
            assert(cache@.contains_key(k));
            let i = choose|i: int| 0 <= i < entries@.len() && (#[trigger] entries@[i]).0@ == k;
            assert(listed[i].0 == k);
        }
        assert forall|i: int, j: int| 0 <= i < j < listed.len() implies (#[trigger] listed[i]).0
            != (#[trigger] listed[j]).0 by {
            assert(entries@[i].0@ != entries@[j].0@);
        }
    }
    r
}

// ── Laws ─────────────────────────────────────────────────────────────────────

/// The key rests on the user, the name and the port alone, so moving a host to
/// another group, or elsewhere in the file, keeps its cache entry.
pub proof fn keys_survive_reordering(a: HostConfigView, b: HostConfigView)
    requires
        a.user == b.user,
        a.hostname == b.hostname,
        a.port == b.port,
    ensures
        key_of(a) == key_of(b),
{
}

/// Hosts that differ in the port alone have different keys.
pub proof fn keys_tell_ports_apart(a: HostConfigView, b: HostConfigView)
    requires
        a.user == b.user,
        a.hostname == b.hostname,
        a.port != b.port,
    ensures
        key_of(a) != key_of(b),
{
    if key_of(a) == key_of(b) {
        let front = a.user + "@"@ + a.hostname + ":"@;
        let n = front.len() as int;
        assert(key_of(a).skip(n) =~= text::decimal(a.port as nat));
        assert(key_of(b).skip(n) =~= text::decimal(b.port as nat));
        text::lemma_decimal_injective(a.port as nat, b.port as nat);
    }
}

/// No two hosts share a key unless they are reached in the same way, where user
/// names hold no `@`.
pub proof fn keys_tell_hosts_apart(a: HostConfigView, b: HostConfigView)
    requires
        !a.user.contains('@'),
        !b.user.contains('@'),
        key_of(a) == key_of(b),
    ensures
        a.user == b.user,
        a.hostname == b.hostname,
        a.port == b.port,
{
    reveal_strlit("@");
    reveal_strlit(":");
    let key = key_of(a);
    let da = text::decimal(a.port as nat);
    let db = text::decimal(b.port as nat);
    let m = a.user.len() as int;
    let n = b.user.len() as int;
    assert(key[m] == '@');
    assert(key_of(b)[n] == '@');
    if m < n {
        assert(key_of(b)[m] == b.user[m]);
        assert(b.user.contains(b.user[m]));
    } else if n < m {
        assert(key[n] == a.user[n]);
        assert(a.user.contains(a.user[n]));
    }
    assert(a.user =~= key.take(m));
    assert(b.user =~= key_of(b).take(n));
    text::lemma_decimal_digits(a.port as nat);
    text::lemma_decimal_digits(b.port as nat);
    let x = key.len() - da.len();
    let y = key.len() - db.len();
    assert(key[x - 1] == ':');
    assert(key_of(b)[y - 1] == ':');
    assert(forall|i: int| x <= i < key.len() ==> key[i] == #[trigger] da[i - x]);
    assert(forall|i: int| y <= i < key.len() ==> key_of(b)[i] == #[trigger] db[i - y]);
    if x < y {
        assert(key[y - 1] == da[y - 1 - x]);
    } else if y < x {
        assert(key_of(b)[x - 1] == db[x - 1 - y]);
    }
    assert(da =~= key.skip(x));
    assert(db =~= key_of(b).skip(y));
    text::lemma_decimal_injective(a.port as nat, b.port as nat);
    assert(a.hostname =~= key.subrange(m + 1, x - 1));
    assert(b.hostname =~= key_of(b).subrange(n + 1, y - 1));
}

/// What was stored is what is loaded: the entries of a cache make up that
/// cache again, in whatever order they are read back.
pub proof fn a_stored_cache_is_loaded_again(
    entries: Seq<(Seq<char>, CacheEntryView)>,
    cache: Map<Seq<char>, CacheEntryView>,
)
    requires
        lists(entries, cache),
    ensures
        restored(entries) == cache,
{
    lemma_restored(entries);
    let r = restored(entries);
    assert forall|k: Seq<char>| #[trigger] r.contains_key(k) == cache.contains_key(k) by {
        if r.contains_key(k) {
            let i = choose|i: int| 0 <= i < entries.len() && (#[trigger] entries[i]).0 == k;
            assert(cache.contains_key(entries[i].0));
        }
        if cache.contains_key(k) {
            let i = choose|i: int| 0 <= i < entries.len() && (#[trigger] entries[i]).0 == k;
            assert(r.contains_key(entries[i].0));
        }
    }
    assert forall|k: Seq<char>| #[trigger] r.contains_key(k) implies r[k] == cache[k] by {
        let i = choose|i: int| 0 <= i < entries.len() && (#[trigger] entries[i]).0 == k;
        assert(cache[entries[i].0] == entries[i].1);
    }
    assert(r =~= cache);
}

proof fn lemma_restored(entries: Seq<(Seq<char>, CacheEntryView)>)
    requires
        forall|i: int, j: int|
            0 <= i < j < entries.len() ==> (#[trigger] entries[i]).0 != (#[trigger] entries[j]).0,
    ensures
        forall|i: int|
            0 <= i < entries.len() ==> restored(entries).contains_key((#[trigger] entries[i]).0)
                && restored(entries)[entries[i].0] == entries[i].1,
        forall|k: Seq<char>| #[trigger]
            restored(entries).contains_key(k) ==> exists|i: int|
                0 <= i < entries.len() && (#[trigger] entries[i]).0 == k,
    decreases entries.len(),
{
    if entries.len() > 0 {
        let before = entries.drop_last();
        let last = entries.len() - 1;
        assert(forall|i: int| 0 <= i < last ==> before[i] == entries[i]);
        lemma_restored(before);
        assert forall|i: int| 0 <= i < entries.len() implies restored(entries).contains_key(
            (#[trigger] entries[i]).0,
        ) && restored(entries)[entries[i].0] == entries[i].1 by {
            if i < last {
                assert(before[i] == entries[i]);
                assert(entries[i].0 != entries[last].0);
            }
        }
        assert forall|k: Seq<char>| #[trigger] restored(entries).contains_key(k) implies exists|
            i: int,
        | 0 <= i < entries.len() && (#[trigger] entries[i]).0 == k by {
            if k == entries[last].0 {
                assert(entries[last].0 == k);
            } else {
                assert(restored(before).contains_key(k));
                let i = choose|i: int| 0 <= i < before.len() && (#[trigger] before[i]).0 == k;
                assert(entries[i].0 == k);
            }
        }
    }
}

} // verus!

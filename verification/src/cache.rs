//! The fast side: a key-value cache with per-entry expiry.
//!
//! Pure key-value semantics and no business logic: the cache holds one
//! text per key, each with an optional expiry instant, and an entry at
//! or past its expiry is as good as absent. A reachability flag models
//! the connection to the backing cache server; an unreachable cache
//! answers `Unavailable` rather than guessing.

use vstd::prelude::*;

use crate::languages::Language;

verus! {

/// The keys the core keeps in the cache: the served payload and the
/// reset marker, one of each per language.
#[derive(Debug, Clone, Copy, PartialEq, Eq, Structural)]
pub enum CacheKey {
    /// `qotd:{language}` — the serialized quote of the day.
    Qotd(Language),
    /// `qotd:reset:{language}` — the epoch second of the next rotation.
    Reset(Language),
}

/// One cache entry as stored.
#[derive(Debug, Clone, PartialEq, Eq)]
pub struct CacheEntry {
    pub key: CacheKey,
    pub value: String,
    pub expires_at: Option<i64>,
}

/// The mathematical content of an entry.
pub struct EntryModel {
    pub key: CacheKey,
    pub value: Seq<char>,
    pub expires_at: Option<int>,
}

impl View for CacheEntry {
    type V = EntryModel;

    open spec fn view(&self) -> EntryModel {
        EntryModel {
            key: self.key,
            value: self.value@,
            expires_at: match self.expires_at {
                Some(t) => Some(t as int),
                None => None,
            },
        }
    }
}

/// Whether an entry still counts at instant `now`.
pub open spec fn entry_live(e: EntryModel, now: int) -> bool {
    match e.expires_at {
        None => true,
        Some(t) => now < t,
    }
}

/// The first entry under a key, scanning front to back.
pub open spec fn spec_get(entries: Seq<EntryModel>, key: CacheKey) -> Option<EntryModel>
    decreases entries.len(),
{
    if entries.len() == 0 {
        None
    } else if entries[0].key == key {
        Some(entries[0])
    } else {
        spec_get(entries.drop_first(), key)
    }
}

/// What a read can come back with.
#[derive(Debug, Clone, PartialEq, Eq)]
pub enum CacheRead {
    /// The stored text, present and not expired.
    Hit(String),
    /// Nothing stored, or only an expired entry.
    Miss,
    /// The cache cannot be reached: a transient condition.
    Unavailable,
}

pub proof fn lemma_spec_get_some(entries: Seq<EntryModel>, key: CacheKey, i: int)
    requires
        0 <= i < entries.len(),
        entries[i].key == key,
        forall|j: int| 0 <= j < i ==> (#[trigger] entries[j]).key != key,
    ensures
        spec_get(entries, key) == Some(entries[i]),
    decreases i,
{
    if i > 0 {
        let rest = entries.drop_first();
        assert(forall|j: int| 0 <= j < i - 1 ==> rest[j] == #[trigger] entries[j + 1]);
        lemma_spec_get_some(rest, key, i - 1);
    }
}

pub proof fn lemma_spec_get_none(entries: Seq<EntryModel>, key: CacheKey)
    requires
        forall|j: int| 0 <= j < entries.len() ==> (#[trigger] entries[j]).key != key,
    ensures
        spec_get(entries, key) is None,
    decreases entries.len(),
{
    if entries.len() > 0 {
        lemma_spec_get_none(entries.drop_first(), key);
    }
}

/// The cache: entries and a reachability flag.
pub struct QotdCache {
    entries: Vec<CacheEntry>,
    available: bool,
}

impl QotdCache {
    /// The entries' mathematical content.
    pub closed spec fn entries_view(&self) -> Seq<EntryModel> {
        self.entries@.map_values(|e: CacheEntry| e@)
    }

    /// Whether the cache answers at all.
    pub closed spec fn is_available(&self) -> bool {
        self.available
    }

    /// At most one entry per key.
    pub closed spec fn wf(&self) -> bool {
        forall|i: int, j: int|
            0 <= i < j < self.entries_view().len() ==> (#[trigger] self.entries_view()[i]).key != (
            #[trigger] self.entries_view()[j]).key
    }

    /// What is stored under a key, expired or not.
    pub open spec fn lookup(&self, key: CacheKey) -> Option<EntryModel> {
        spec_get(self.entries_view(), key)
    }

    /// The text a read at instant `now` finds under a key.
    pub open spec fn live_value(&self, key: CacheKey, now: int) -> Option<Seq<char>> {
        match self.lookup(key) {
            Some(e) => if entry_live(e, now) {
                Some(e.value)
            } else {
                None
            },
            None => None,
        }
    }

    /// An empty, reachable cache.
    pub fn new() -> (c: QotdCache)
        ensures
            c.wf(),
            c.entries_view() =~= Seq::<EntryModel>::empty(),
            c.is_available(),
    {
        QotdCache { entries: Vec::new(), available: true }
    }

    /// Make the cache reachable or unreachable; the entries stay.
    pub fn set_available(&mut self, up: bool)
        ensures
            final(self).entries_view() == old(self).entries_view(),
            final(self).is_available() == up,
            old(self).wf() ==> final(self).wf(),
    {
        self.available = up;
        proof {
            assert(self.entries_view() =~= old(self).entries_view());
        }
    }

    /// Store `value` under `key`. With `expires_at` an instant, the
    /// entry counts until that instant; with `None` it never expires.
    /// Any earlier entry under the key is replaced. Returns whether the
    /// cache was reachable; an unreachable cache stores nothing.
    pub fn put(&mut self, key: CacheKey, value: String, expires_at: Option<i64>) -> (ok: bool)
        requires
            old(self).wf(),
        ensures
            final(self).wf(),
            final(self).is_available() == old(self).is_available(),
            ok == old(self).is_available(),
            !ok ==> final(self).entries_view() == old(self).entries_view(),
            ok ==> (final(self).lookup(key) matches Some(e) && e == (EntryModel {
                key,
                value: value@,
                expires_at: match expires_at {
                    Some(t) => Some(t as int),
                    None => None,
                },
            })),
            ok ==> forall|k2: CacheKey|
                k2 != key ==> #[trigger] final(self).lookup(k2) == old(self).lookup(k2),
    {
        if !self.available {
            return false;
        }
        let entry = CacheEntry { key, value, expires_at };
        let ghost target = entry@;
        proof {
            assert(target == (EntryModel {
                key,
                value: value@,
                expires_at: match expires_at {
                    Some(t) => Some(t as int),
                    None => None,
                },
            }));
        }
        let mut i: usize = 0;
        while i < self.entries.len()
            invariant
                0 <= i <= self.entries.len(),
                self.entries_view() == old(self).entries_view(),
                self.is_available() == old(self).is_available(),
                old(self).is_available(),
                self.wf(),
                forall|j: int| 0 <= j < i ==> (#[trigger] self.entries_view()[j]).key != key,
                entry@ == target,
                entry.key == key,
                target == (EntryModel {
                    key,
                    value: value@,
                    expires_at: match expires_at {
                        Some(t) => Some(t as int),
                        None => None,
                    },
                }),
            decreases self.entries.len() - i,
        {
            if self.entries[i].key == key {
                let ghost prior = self.entries_view();
                let ghost idx = i as int;
                proof {
                    lemma_spec_get_replaced(prior, key, idx, target);
                }
                self.entries.set(i, entry);
                proof {
                    assert(self.entries_view() =~= prior.update(idx, target));
                    assert(self.lookup(key) == Some(target));
                    assert forall|a: int, b: int|
                        0 <= a < b < self.entries_view().len() implies (
                    #[trigger] self.entries_view()[a]).key != (
                    #[trigger] self.entries_view()[b]).key by {
                        assert(self.entries_view()[a].key == prior[a].key);
                        assert(self.entries_view()[b].key == prior[b].key);
                    }
                }
                return true;
            }
            i = i + 1;
        }
        self.entries.push(entry);
        proof {
            let prior = old(self).entries_view();
            assert(self.entries_view() =~= prior.push(target));
            lemma_spec_get_some(self.entries_view(), key, prior.len() as int);
            assert forall|k2: CacheKey| k2 != key implies #[trigger] spec_get(
                self.entries_view(),
                k2,
            ) == spec_get(prior, k2) by {
                lemma_spec_get_push_other(prior, target, k2);
            }
        }
        true
    }

    /// What is stored under `key` at instant `now`: the text when a
    /// live entry exists, a miss when none (or only an expired one)
    /// does, and `Unavailable` when the cache cannot be reached.
    pub fn get(&self, key: CacheKey, now: i64) -> (r: CacheRead)
        ensures
            !self.is_available() ==> r == CacheRead::Unavailable,
            self.is_available() ==> (match self.live_value(key, now as int) {
                Some(v) => r matches CacheRead::Hit(s) && s@ == v,
                None => r == CacheRead::Miss,
            }),
    {
        if !self.available {
            return CacheRead::Unavailable;
        }
        let mut i: usize = 0;
        while i < self.entries.len()
            invariant
                0 <= i <= self.entries.len(),
                self.is_available(),
                forall|j: int| 0 <= j < i ==> (#[trigger] self.entries_view()[j]).key != key,
            decreases self.entries.len() - i,
        {
            if self.entries[i].key == key {
                proof {
                    lemma_spec_get_some(self.entries_view(), key, i as int);
                }
                let live = match self.entries[i].expires_at {
                    None => true,
                    Some(t) => now < t,
                };
                if live {
                    return CacheRead::Hit(self.entries[i].value.clone());
                } else {
                    return CacheRead::Miss;
                }
            }
            i = i + 1;
        }
        proof {
            lemma_spec_get_none(self.entries_view(), key);
        }
        CacheRead::Miss
    }
}

/// Updating the one entry under a key replaces it and nothing else.
proof fn lemma_spec_get_replaced(
    entries: Seq<EntryModel>,
    key: CacheKey,
    i: int,
    fresh: EntryModel,
)
    requires
        0 <= i < entries.len(),
        entries[i].key == key,
        fresh.key == key,
        forall|j: int| 0 <= j < i ==> (#[trigger] entries[j]).key != key,
        forall|a: int, b: int|
            0 <= a < b < entries.len() ==> (#[trigger] entries[a]).key != (
            #[trigger] entries[b]).key,
    ensures
        spec_get(entries.update(i, fresh), key) == Some(fresh),
        forall|k2: CacheKey|
            k2 != key ==> #[trigger] spec_get(entries.update(i, fresh), k2) == spec_get(
                entries,
                k2,
            ),
{
    let after = entries.update(i, fresh);
    lemma_spec_get_some(after, key, i);
    assert forall|k2: CacheKey| k2 != key implies #[trigger] spec_get(after, k2) == spec_get(
        entries,
        k2,
    ) by {
        lemma_spec_get_update_other(entries, i, fresh, k2);
    }
}

/// A push under a different key changes nothing a key sees.
proof fn lemma_spec_get_push_other(entries: Seq<EntryModel>, fresh: EntryModel, k2: CacheKey)
    requires
        fresh.key != k2,
    ensures
        spec_get(entries.push(fresh), k2) == spec_get(entries, k2),
    decreases entries.len(),
{
    let after = entries.push(fresh);
    if entries.len() == 0 {
        assert(after.len() == 1);
        assert(after[0] == fresh);
        assert(after.drop_first() =~= Seq::<EntryModel>::empty());
        assert(spec_get(Seq::<EntryModel>::empty(), k2) is None);
    } else {
        assert(after[0] == entries[0]);
        if entries[0].key != k2 {
            assert(after.drop_first() =~= entries.drop_first().push(fresh));
            lemma_spec_get_push_other(entries.drop_first(), fresh, k2);
        }
    }
}

/// An update at one position changes nothing under other keys, as long
/// as the entry there keeps its key.
proof fn lemma_spec_get_update_other(
    entries: Seq<EntryModel>,
    i: int,
    fresh: EntryModel,
    k2: CacheKey,
)
    requires
        0 <= i < entries.len(),
        fresh.key == entries[i].key,
        fresh.key != k2,
    ensures
        spec_get(entries.update(i, fresh), k2) == spec_get(entries, k2),
    decreases entries.len(),
{
    let after = entries.update(i, fresh);
    if i == 0 {
        assert(after[0] == fresh);
        assert(after.drop_first() =~= entries.drop_first());
    } else {
        assert(after[0] == entries[0]);
        if entries[0].key != k2 {
            assert(after.drop_first() =~= entries.drop_first().update(i - 1, fresh));
            lemma_spec_get_update_other(entries.drop_first(), i - 1, fresh, k2);
        }
    }
}

} // verus!

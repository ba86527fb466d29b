//! The resolution cache: recent answers by host name, each with its lifetime.

use crate::address::{AddressSet, IpAddress, Ttl};
use crate::assoc::{
    assoc_map, lemma_assoc_at, lemma_assoc_push, lemma_assoc_remove, lemma_assoc_update,
};
use crate::hostname::Hostname;
use vstd::prelude::*;

verus! {

/// What the cache holds for one host, as a mathematical value.
pub struct CachedAnswer {
    pub addresses: Seq<IpAddress>,
    pub ttl: Ttl,
    pub inserted_at: u64,
}

impl CachedAnswer {
    /// An entry has expired once the clock is past its insertion time plus its
    /// lifetime.
    pub open spec fn expired(self, now: u64) -> bool {
        now > self.inserted_at + self.ttl.millis
    }
}

/// The addresses the cache serves for `host` at `now`: those of a stored entry
/// that has not expired.
pub open spec fn live_answer(
    cache: Map<Seq<char>, CachedAnswer>,
    host: Seq<char>,
    now: u64,
) -> Option<Seq<IpAddress>> {
    if cache.contains_key(host) && !cache[host].expired(now) {
        Some(cache[host].addresses)
    } else {
        None
    }
}

/// The cache without the entries that have expired at `now`.
pub open spec fn swept(cache: Map<Seq<char>, CachedAnswer>, now: u64) -> Map<
    Seq<char>,
    CachedAnswer,
> {
    Map::new(
        |h: Seq<char>| cache.contains_key(h) && !cache[h].expired(now),
        |h: Seq<char>| cache[h],
    )
}

/// The cache after an answer for `host` arrived at `now`: the expired entries
/// are gone, and the entry of `host` is the new answer, or absent if the
/// answer's lifetime is zero.
pub open spec fn stored(
    cache: Map<Seq<char>, CachedAnswer>,
    host: Seq<char>,
    addresses: Seq<IpAddress>,
    ttl: Ttl,
    now: u64,
) -> Map<Seq<char>, CachedAnswer> {
    if ttl.millis == 0 {
        swept(cache, now).remove(host)
    } else {
        swept(cache, now).insert(host, CachedAnswer { addresses, ttl, inserted_at: now })
    }
}

/// One cached answer: the host, its addresses, their lifetime and the time at
/// which they were stored, in milliseconds of the caller's clock.
#[derive(Debug)]
pub struct CacheEntry {
    pub hostname: Hostname,
    pub addresses: AddressSet,
    pub ttl: Ttl,
    pub inserted_at: u64,
}

impl CacheEntry {
    /// The entry without its host, as a mathematical value.
    pub open spec fn record(self) -> CachedAnswer {
        CachedAnswer { addresses: self.addresses@, ttl: self.ttl, inserted_at: self.inserted_at }
    }

    /// Whether the entry has expired at `now`.
    pub fn is_expired(&self, now: u64) -> (e: bool)
        ensures
            e == self.record().expired(now),
    {
        now > self.inserted_at && now - self.inserted_at > self.ttl.millis
    }
}

spec fn entry_keys(entries: Seq<CacheEntry>) -> Seq<Seq<char>> {
    entries.map_values(|e: CacheEntry| e.hostname@)
}

spec fn entry_records(entries: Seq<CacheEntry>) -> Seq<CachedAnswer> {
    entries.map_values(|e: CacheEntry| e.record())
}

/// Recent answers by host name. No host has two entries.
#[derive(Debug)]
pub struct Cache {
    entries: Vec<CacheEntry>,
}

impl View for Cache {
    type V = Map<Seq<char>, CachedAnswer>;

    closed spec fn view(&self) -> Map<Seq<char>, CachedAnswer> {
        assoc_map(entry_keys(self.entries@), entry_records(self.entries@))
    }
}

impl Cache {
    /// No host occurs twice.
    pub closed spec fn wf(&self) -> bool {
        entry_keys(self.entries@).no_duplicates()
    }

    pub fn new() -> (cache: Cache)
        ensures
            cache.wf(),
            cache@ == Map::<Seq<char>, CachedAnswer>::empty(),
    {
        let cache = Cache { entries: Vec::new() };
        assert(cache@ =~= Map::<Seq<char>, CachedAnswer>::empty());
        cache
    }

    fn position(&self, hostname: &Hostname) -> (at: Option<usize>)
        requires
            self.wf(),
        ensures
            match at {
                Some(i) => i < self.entries.len() && self.entries[i as int].hostname@ == hostname@
                    && self@.contains_key(hostname@)
                    && self@[hostname@] == self.entries[i as int].record(),
                None => !self@.contains_key(hostname@),
            },
    {
        let mut i: usize = 0;
        while i < self.entries.len()
            invariant
                self.wf(),
                i <= self.entries.len(),
                forall|j: int| 0 <= j < i ==> self.entries[j].hostname@ != hostname@,
            decreases self.entries.len() - i,
        {
            if self.entries[i].hostname.equals(hostname) {
                proof {
                    let keys = entry_keys(self.entries@);
                    lemma_assoc_at(keys, entry_records(self.entries@), i as int);
                }
                return Some(i);
            }
            i += 1;
        }
        proof {
            let keys = entry_keys(self.entries@);
            if keys.contains(hostname@) {
                let j = keys.index_of(hostname@);
                assert(self.entries[j].hostname@ == hostname@);
            }
        }
        None
    }

    /// Whether the cache holds an entry for the host, expired or not.
    pub fn contains(&self, hostname: &Hostname) -> (held: bool)
        requires
            self.wf(),
        ensures
            held == self@.contains_key(hostname@),
    {
        self.position(hostname).is_some()
    }

    /// The addresses of the host's entry, unless there is none or it has
    /// expired at `now`.
    pub fn get(&self, hostname: &Hostname, now: u64) -> (found: Option<AddressSet>)
        requires
            self.wf(),
        ensures
            match found {
                Some(addresses) => live_answer(self@, hostname@, now) == Some(addresses@),
                None => live_answer(self@, hostname@, now) is None,
            },
    {
        match self.position(hostname) {
            Some(i) => {
                if self.entries[i].is_expired(now) {
                    None
                } else {
                    Some(self.entries[i].addresses.clone())
                }
            },
            None => None,
        }
    }

    /// Removes every entry that has expired at `now`.
    pub fn sweep(&mut self, now: u64)
        requires
            old(self).wf(),
        ensures
            final(self).wf(),
            final(self)@ == swept(old(self)@, now),
    {
        let mut i: usize = 0;
        while i < self.entries.len()
            invariant
                self.wf(),
                i <= self.entries.len(),
                forall|j: int| 0 <= j < i ==> !self.entries[j].record().expired(now),
                forall|h: Seq<char>| #[trigger]
                    self@.contains_key(h) ==> old(self)@.contains_key(h)
                        && self@[h] == old(self)@[h],
                forall|h: Seq<char>|
                    old(self)@.contains_key(h) && !old(self)@[h].expired(now)
                        ==> #[trigger] self@.contains_key(h),
            decreases self.entries.len() - i,
        {
            if self.entries[i].is_expired(now) {
                let ghost before = self@;
                let ghost keys = entry_keys(self.entries@);
                let ghost records = entry_records(self.entries@);
                proof {
                    lemma_assoc_at(keys, records, i as int);
                    lemma_assoc_remove(keys, records, i as int);
                    let rest = self.entries@.remove(i as int);
                    assert(entry_keys(rest) =~= keys.remove(i as int));
                    assert(entry_records(rest) =~= records.remove(i as int));
                }
                let _ = self.entries.remove(i);
                assert(self@ == before.remove(keys[i as int]));
                assert(before[keys[i as int]].expired(now));
            } else {
                i += 1;
            }
        }
        proof {
            let keys = entry_keys(self.entries@);
            let records = entry_records(self.entries@);
            assert forall|h: Seq<char>| self@.contains_key(h) implies !(#[trigger] self@[h]).expired(
                now,
            ) by {
                let j = keys.index_of(h);
                assert(keys[j] == h);
                lemma_assoc_at(keys, records, j);
            }
            assert(self@ =~= swept(old(self)@, now));
        }
    }

    /// Stores the answer for the host as of `now`, in place of any earlier
    /// one, and drops the entries that have expired by then. An answer whose
    /// lifetime is zero is not stored.
    pub fn put(&mut self, hostname: Hostname, addresses: AddressSet, ttl: Ttl, now: u64)
        requires
            old(self).wf(),
        ensures
            final(self).wf(),
            final(self)@ == stored(old(self)@, hostname@, addresses@, ttl, now),
    {
        self.sweep(now);
        let at = self.position(&hostname);
        let ghost keys = entry_keys(self.entries@);
        let ghost records = entry_records(self.entries@);
        match at {
            Some(i) => {
                if ttl.is_zero() {
                    proof {
                        lemma_assoc_remove(keys, records, i as int);
                        let rest = self.entries@.remove(i as int);
                        assert(entry_keys(rest) =~= keys.remove(i as int));
                        assert(entry_records(rest) =~= records.remove(i as int));
                    }
                    let _ = self.entries.remove(i);
                } else {
                    let entry = CacheEntry { hostname, addresses, ttl, inserted_at: now };
                    proof {
                        lemma_assoc_update(keys, records, i as int, entry.record());
                        let replaced = self.entries@.update(i as int, entry);
                        assert(entry_keys(replaced) =~= keys);
                        assert(entry_records(replaced) =~= records.update(i as int, entry.record()));
                    }
                    self.entries.set(i, entry);
                }
            },
            None => {
                if ttl.is_zero() {
                    assert(self@.remove(hostname@) =~= self@);
                } else {
                    let entry = CacheEntry { hostname, addresses, ttl, inserted_at: now };
                    proof {
                        lemma_assoc_push(keys, records, entry.hostname@, entry.record());
                        let grown = self.entries@.push(entry);
                        assert(entry_keys(grown) =~= keys.push(entry.hostname@));
                        assert(entry_records(grown) =~= records.push(entry.record()));
                    }
                    self.entries.push(entry);
                }
            },
        }
    }
}

} // verus!

//! The resolution coordinator: one lookup in flight per host, shared by all
//! who ask for it while it runs, with the cache in front and the configured
//! strategy behind.
//!
//! The coordinator never waits. Each of its operations takes the state and one
//! event (a caller asks; the DNS stack reports; a timer fires; a caller gives
//! up) and gives the next state and what the host process has to do.

use crate::address::{AddressSet, Answer, IpAddress, Ttl};
use crate::assoc::{assoc_map, lemma_assoc_at, lemma_assoc_push, lemma_assoc_remove};
use crate::cache::{live_answer, swept, Cache};
use crate::failure::{CapabilityError, ResolutionError};
use crate::hostname::{normalize, Hostname};
use crate::model::{ActionView, CoordinatorView, PendingView};
use crate::strategy::{
    advance, answer_view, lemma_finished_with_addresses, lemma_leaves_hold_no_chain,
    lemma_suspended_at_network, NetworkResolver, Progress, ProgressView, Strategy,
};
use vstd::prelude::*;

verus! {

/// The bound on one call into the DNS stack where nothing else is said, in
/// milliseconds.
pub const DEFAULT_TIMEOUT_MILLIS: u64 = 5000;

/// What a coordinator is set up with.
#[derive(Debug)]
pub struct Config {
    /// The strategy that answers what the cache cannot.
    pub strategy: Strategy,
    /// The bound, in milliseconds, on a call of a network strategy that names
    /// none of its own.
    pub default_timeout: u64,
    /// The lifetime of an answer that came without one.
    pub default_ttl: Ttl,
}

/// A lookup in flight: the host, who waits for it, and the call that is out.
#[derive(Debug)]
pub struct PendingLookup {
    pub hostname: Hostname,
    pub waiters: Vec<u64>,
    pub attempt: usize,
    pub call: u64,
    pub issued_at: u64,
    pub timeout: u64,
}

impl PendingLookup {
    /// The lookup without its host, as a mathematical value.
    pub open spec fn record(self) -> PendingView {
        PendingView {
            waiters: self.waiters@,
            attempt: self.attempt as nat,
            call: self.call,
            issued_at: self.issued_at,
            timeout: self.timeout,
        }
    }

    /// Whether the call in flight is overdue at `now`.
    pub fn is_overdue(&self, now: u64) -> (late: bool)
        ensures
            late == self.record().overdue(now),
    {
        now >= self.issued_at && now - self.issued_at >= self.timeout
    }
}

/// A call that the host process is to make into the DNS stack.
#[derive(Debug, PartialEq, Eq)]
pub struct Invocation {
    pub hostname: Hostname,
    pub call: u64,
    /// The bound on the call, in milliseconds.
    pub timeout: u64,
}

/// What the host process has to do after an event.
#[derive(Debug, PartialEq, Eq)]
pub enum Action {
    /// Hand the caller this result; it does not wait.
    Answer(Result<AddressSet, ResolutionError>),
    /// Suspend the caller: a lookup for its host is in flight.
    Wait,
    /// Make this call and report back. Whoever asked is suspended meanwhile.
    Invoke(Invocation),
    /// Wake these callers, each with this one result.
    Release(Vec<u64>, Result<AddressSet, ResolutionError>),
    /// Nothing: the event was stale.
    Ignore,
}

/// A result whose addresses are read as a mathematical value.
pub open spec fn addresses_view(result: Result<AddressSet, ResolutionError>) -> Result<
    Seq<IpAddress>,
    ResolutionError,
> {
    match result {
        Ok(addresses) => Ok(addresses@),
        Err(e) => Err(e),
    }
}

impl View for Action {
    type V = ActionView;

    open spec fn view(&self) -> ActionView {
        match *self {
            Action::Answer(result) => ActionView::Answer(addresses_view(result)),
            Action::Wait => ActionView::Wait,
            Action::Invoke(invocation) => ActionView::Invoke {
                hostname: invocation.hostname@,
                call: invocation.call,
                timeout: invocation.timeout,
            },
            Action::Release(waiters, result) => ActionView::Release {
                waiters: waiters@,
                outcome: addresses_view(result),
            },
            Action::Ignore => ActionView::Ignore,
        }
    }
}

spec fn pending_keys(lookups: Seq<PendingLookup>) -> Seq<Seq<char>> {
    lookups.map_values(|l: PendingLookup| l.hostname@)
}

spec fn pending_records(lookups: Seq<PendingLookup>) -> Seq<PendingView> {
    lookups.map_values(|l: PendingLookup| l.record())
}

/// The position of `waiter` among the waiters.
fn waiter_position(waiters: &Vec<u64>, waiter: u64) -> (at: Option<usize>)
    ensures
        match at {
            Some(i) => i < waiters.len() && waiters[i as int] == waiter,
            None => !waiters@.contains(waiter),
        },
{
    let mut i: usize = 0;
    while i < waiters.len()
        invariant
            i <= waiters.len(),
            forall|j: int| 0 <= j < i ==> waiters[j] != waiter,
        decreases waiters.len() - i,
    {
        if waiters[i] == waiter {
            return Some(i);
        }
        i += 1;
    }
    None
}

/// The coordinator: the cache, the lookups in flight and the strategy's
/// leaves.
#[derive(Debug)]
pub struct Coordinator {
    leaves: Vec<Strategy>,
    default_timeout: u64,
    default_ttl: Ttl,
    cache: Cache,
    pending: Vec<PendingLookup>,
    next_call: u64,
}

impl View for Coordinator {
    type V = CoordinatorView;

    closed spec fn view(&self) -> CoordinatorView {
        CoordinatorView {
            leaves: self.leaves@,
            default_timeout: self.default_timeout,
            default_ttl: self.default_ttl,
            cache: self.cache@,
            pending: assoc_map(pending_keys(self.pending@), pending_records(self.pending@)),
            next_call: self.next_call,
        }
    }
}

impl Coordinator {
    /// The cache and the table of lookups hold no host twice, and the state
    /// they stand for is well formed.
    pub closed spec fn wf(&self) -> bool {
        &&& self.cache.wf()
        &&& pending_keys(self.pending@).no_duplicates()
        &&& self@.wf()
    }

    /// A well-formed coordinator stands for a well-formed state.
    pub proof fn lemma_wf_view(&self)
        requires
            self.wf(),
        ensures
            self@.wf(),
    {
    }

    /// A coordinator with an empty cache and nothing in flight.
    pub fn new(config: Config) -> (coordinator: Coordinator)
        ensures
            coordinator.wf(),
            coordinator@ == (CoordinatorView {
                leaves: config.strategy.leaves(),
                default_timeout: config.default_timeout,
                default_ttl: config.default_ttl,
                cache: Map::empty(),
                pending: Map::empty(),
                next_call: 0,
            }),
    {
        let mut leaves: Vec<Strategy> = Vec::new();
        config.strategy.flatten_into(&mut leaves);
        let coordinator = Coordinator {
            leaves,
            default_timeout: config.default_timeout,
            default_ttl: config.default_ttl,
            cache: Cache::new(),
            pending: Vec::new(),
            next_call: 0,
        };
        proof {
            lemma_leaves_hold_no_chain(config.strategy);
            assert(coordinator@.pending =~= Map::empty());
            assert(coordinator@.leaves =~= config.strategy.leaves());
        }
        coordinator
    }

    fn position(&self, hostname: &Hostname) -> (at: Option<usize>)
        requires
            self.wf(),
        ensures
            match at {
                Some(i) => i < self.pending.len() && self.pending[i as int].hostname@ == hostname@
                    && self@.pending.contains_key(hostname@) && self@.pending[hostname@]
                    == self.pending[i as int].record(),
                None => !self@.pending.contains_key(hostname@),
            },
    {
        let mut i: usize = 0;
        while i < self.pending.len()
            invariant
                self.wf(),
                i <= self.pending.len(),
                forall|j: int| 0 <= j < i ==> self.pending[j].hostname@ != hostname@,
            decreases self.pending.len() - i,
        {
            if self.pending[i].hostname.equals(hostname) {
                proof {
                    let keys = pending_keys(self.pending@);
                    lemma_assoc_at(keys, pending_records(self.pending@), i as int);
                }
                return Some(i);
            }
            i += 1;
        }
        proof {
            let keys = pending_keys(self.pending@);
            if keys.contains(hostname@) {
                let j = keys.index_of(hostname@);
                assert(self.pending[j].hostname@ == hostname@);
            }
        }
        None
    }

    /// Takes the lookup at position `i` out of the table.
    fn take(&mut self, i: usize) -> (lookup: PendingLookup)
        requires
            old(self).wf(),
            i < old(self).pending.len(),
        ensures
            lookup == old(self).pending[i as int],
            final(self).wf(),
            final(self)@ == (CoordinatorView {
                pending: old(self)@.pending.remove(lookup.hostname@),
                ..old(self)@
            }),
            old(self)@.pending.contains_key(lookup.hostname@),
            old(self)@.pending[lookup.hostname@] == lookup.record(),
    {
        proof {
            let keys = pending_keys(self.pending@);
            let records = pending_records(self.pending@);
            lemma_assoc_at(keys, records, i as int);
            lemma_assoc_remove(keys, records, i as int);
            assert(pending_keys(self.pending@.remove(i as int)) =~= keys.remove(i as int));
            assert(pending_records(self.pending@.remove(i as int)) =~= records.remove(i as int));
        }
        let lookup = self.pending.remove(i);
        proof {
            let before = old(self)@;
            assert(self@.pending == before.pending.remove(lookup.hostname@));
            assert forall|h: Seq<char>| #[trigger] self@.pending.contains_key(h) implies
                self@.valid_pending(self@.pending[h]) by {
                assert(before.pending.contains_key(h));
                assert(before.valid_pending(before.pending[h]));
            }
        }
        lookup
    }

    /// Puts a lookup for a host that has none into the table.
    fn put(&mut self, lookup: PendingLookup)
        requires
            old(self).wf(),
            !old(self)@.pending.contains_key(lookup.hostname@),
            old(self)@.valid_pending(lookup.record()),
        ensures
            final(self).wf(),
            final(self)@ == (CoordinatorView {
                pending: old(self)@.pending.insert(lookup.hostname@, lookup.record()),
                ..old(self)@
            }),
    {
        proof {
            let keys = pending_keys(self.pending@);
            let records = pending_records(self.pending@);
            lemma_assoc_push(keys, records, lookup.hostname@, lookup.record());
            assert(pending_keys(self.pending@.push(lookup)) =~= keys.push(lookup.hostname@));
            assert(pending_records(self.pending@.push(lookup)) =~= records.push(lookup.record()));
        }
        self.pending.push(lookup);
        proof {
            let before = old(self)@;
            assert(self@.pending == before.pending.insert(lookup.hostname@, lookup.record()));
            assert forall|h: Seq<char>| #[trigger] self@.pending.contains_key(h) implies
                self@.valid_pending(self@.pending[h]) by {
                if h != lookup.hostname@ {
                    assert(before.pending.contains_key(h));
                    assert(before.valid_pending(before.pending[h]));
                }
            }
        }
    }

    /// Acts on how far the chain got for a host that has no lookup in the
    /// table.
    fn proceed(
        &mut self,
        hostname: Hostname,
        waiters: Vec<u64>,
        progress: Progress,
        now: u64,
        direct: bool,
    ) -> (action: Action)
        requires
            old(self).wf(),
            !old(self)@.pending.contains_key(hostname@),
            waiters@.no_duplicates(),
            progress@ matches ProgressView::Suspended(at) ==> at < old(self)@.leaves.len()
                && old(self)@.leaves[at as int] is Network,
            progress@ matches ProgressView::Finished(Ok(answer)) ==> answer.addresses.len() > 0,
        ensures
            final(self).wf(),
            (final(self)@, action@) == old(self)@.proceed(
                hostname@,
                waiters@,
                progress@,
                now,
                direct,
            ),
    {
        let ghost before = self@;
        assert(before.pending.remove(hostname@) =~= before.pending);
        match progress {
            Progress::Finished(result) => {
                let outcome = match result {
                    Ok(answer) => {
                        let ttl = match answer.ttl {
                            Some(t) => t,
                            None => self.default_ttl,
                        };
                        let addresses = answer.addresses.clone();
                        self.cache.put(hostname, answer.addresses, ttl, now);
                        Ok(addresses)
                    },
                    Err(e) => Err(e),
                };
                if direct {
                    Action::Answer(outcome)
                } else {
                    Action::Release(waiters, outcome)
                }
            },
            Progress::Suspended(at) => {
                let timeout = match &self.leaves[at] {
                    Strategy::Network(resolver) => resolver.timeout_millis(self.default_timeout),
                    _ => self.default_timeout,
                };
                let call = self.next_call;
                let invocation = Invocation { hostname: hostname.clone(), call, timeout };
                self.put(
                    PendingLookup { hostname, waiters, attempt: at, call, issued_at: now, timeout },
                );
                self.next_call = if call == u64::MAX {
                    0
                } else {
                    call + 1
                };
                Action::Invoke(invocation)
            },
        }
    }

    /// A caller, known by the number `waiter`, asks for `host` at `now`
    /// (milliseconds of the host process's clock).
    pub fn resolve(&mut self, host: &str, waiter: u64, now: u64) -> (action: Action)
        requires
            old(self).wf(),
        ensures
            final(self).wf(),
            (final(self)@, action@) == old(self)@.resolve(normalize(host@), waiter, now),
    {
        let hostname = Hostname::new(host);
        match self.cache.get(&hostname, now) {
            Some(addresses) => {
                return Action::Answer(Ok(addresses));
            },
            None => {},
        }
        match self.position(&hostname) {
            Some(i) => {
                if waiter_position(&self.pending[i].waiters, waiter).is_none() {
                    let ghost before = self@;
                    let mut lookup = self.take(i);
                    lookup.waiters.push(waiter);
                    proof {
                        let old_waiters = before.pending[hostname@].waiters;
                        let new_waiters = lookup.waiters@;
                        assert forall|a: int, b: int|
                            0 <= a < new_waiters.len() && 0 <= b < new_waiters.len() && a != b implies
                            new_waiters[a] != new_waiters[b] by {
                            if a < old_waiters.len() {
                                assert(old_waiters.contains(old_waiters[a]));
                            }
                            if b < old_waiters.len() {
                                assert(old_waiters.contains(old_waiters[b]));
                            }
                        }
                        assert(before.valid_pending(before.pending[hostname@]));
                    }
                    self.put(lookup);
                    assert(self@.pending =~= before.join(hostname@, waiter).pending);
                } else {
                    assert(self@.pending =~= self@.join(hostname@, waiter).pending);
                }
                Action::Wait
            },
            None => {
                let progress = advance(&self.leaves, &hostname, 0, None);
                let mut waiters: Vec<u64> = Vec::new();
                waiters.push(waiter);
                proof {
                    lemma_suspended_at_network(self@.leaves, hostname@, 0, None);
                    lemma_finished_with_addresses(self@.leaves, hostname@, 0, None);
                    assert(waiters@ =~= seq![waiter]);
                }
                self.proceed(hostname, waiters, progress, now, true)
            },
        }
    }

    /// The DNS stack reports, at `now`, on the call numbered `call` that was
    /// made for `hostname`.
    pub fn complete(
        &mut self,
        hostname: &Hostname,
        call: u64,
        report: Result<Answer, CapabilityError>,
        now: u64,
    ) -> (action: Action)
        requires
            old(self).wf(),
        ensures
            final(self).wf(),
            (final(self)@, action@) == old(self)@.complete(
                hostname@,
                call,
                answer_view(report),
                now,
            ),
    {
        let ghost before = self@;
        match self.position(hostname) {
            Some(i) => {
                if self.pending[i].call != call {
                    return Action::Ignore;
                }
                assert(before.valid_pending(before.pending[hostname@]));
                let lookup = self.take(i);
                let attempt = lookup.attempt;
                assert(lookup.record() == before.pending[hostname@]);
                assert(attempt < self.leaves.len());
                let progress = match NetworkResolver::interpret(report) {
                    Ok(answer) => Progress::Finished(Ok(answer)),
                    Err(e) => {
                        proof {
                            let next = (attempt + 1) as nat;
                            lemma_suspended_at_network(self@.leaves, hostname@, next, Some(e));
                            lemma_finished_with_addresses(self@.leaves, hostname@, next, Some(e));
                        }
                        advance(&self.leaves, &lookup.hostname, attempt + 1, Some(e))
                    },
                };
                assert(progress@ == before.progress_after(
                    hostname@,
                    attempt as nat,
                    answer_view(report),
                ));
                let ghost mid = self@;
                let action = self.proceed(lookup.hostname, lookup.waiters, progress, now, false);
                proof {
                    let waiters = lookup.waiters@;
                    let expected = before.proceed(hostname@, waiters, progress@, now, false).0;
                    assert(mid.pending.remove(hostname@) =~= before.pending.remove(hostname@));
                    assert(self@.pending =~= expected.pending);
                }
                action
            },
            None => Action::Ignore,
        }
    }

    /// The timer of the call numbered `call`, made for `hostname`, fires at
    /// `now`.
    pub fn expire(&mut self, hostname: &Hostname, call: u64, now: u64) -> (action: Action)
        requires
            old(self).wf(),
        ensures
            final(self).wf(),
            (final(self)@, action@) == old(self)@.expire(hostname@, call, now),
    {
        match self.position(hostname) {
            Some(i) => {
                if self.pending[i].call == call && self.pending[i].is_overdue(now) {
                    self.complete(hostname, call, Err(CapabilityError::TimedOut), now)
                } else {
                    Action::Ignore
                }
            },
            None => Action::Ignore,
        }
    }

    /// The caller numbered `waiter` gives up waiting for `hostname`. Tells
    /// whether it was waiting.
    pub fn abandon(&mut self, hostname: &Hostname, waiter: u64) -> (was_waiting: bool)
        requires
            old(self).wf(),
        ensures
            final(self).wf(),
            final(self)@ == old(self)@.abandon(hostname@, waiter),
            was_waiting == (old(self)@.pending.contains_key(hostname@)
                && old(self)@.pending[hostname@].waiters.contains(waiter)),
    {
        let ghost before = self@;
        match self.position(hostname) {
            Some(i) => {
                match waiter_position(&self.pending[i].waiters, waiter) {
                    Some(j) => {
                        let mut lookup = self.take(i);
                        let ghost old_waiters = lookup.waiters@;
                        let _ = lookup.waiters.remove(j);
                        proof {
                            assert(before.valid_pending(before.pending[hostname@]));
                            assert(old_waiters.contains(waiter));
                            assert(old_waiters.index_of(waiter) == j);
                            let rest = lookup.waiters@;
                            assert forall|a: int, b: int|
                                0 <= a < rest.len() && 0 <= b < rest.len() && a != b implies rest[a]
                                != rest[b] by {
                                assert(rest[a] == old_waiters[if a < j { a } else { a + 1 }]);
                                assert(rest[b] == old_waiters[if b < j { b } else { b + 1 }]);
                            }
                        }
                        self.put(lookup);
                        assert(self@.pending =~= before.abandon(hostname@, waiter).pending);
                        true
                    },
                    None => {
                        assert(self@.pending =~= before.abandon(hostname@, waiter).pending);
                        false
                    },
                }
            },
            None => false,
        }
    }

    /// Drops the cache entries that have expired at `now`.
    pub fn sweep(&mut self, now: u64)
        requires
            old(self).wf(),
        ensures
            final(self).wf(),
            final(self)@ == (CoordinatorView { cache: swept(old(self)@.cache, now), ..old(self)@ }),
    {
        self.cache.sweep(now);
        proof {
            let before = old(self)@;
            assert forall|h: Seq<char>| #[trigger] self@.pending.contains_key(h) implies
                self@.valid_pending(self@.pending[h]) by {
                assert(before.valid_pending(before.pending[h]));
            }
        }
    }

    /// What the cache serves for the host at `now`, without any other effect.
    pub fn cached(&self, hostname: &Hostname, now: u64) -> (found: Option<AddressSet>)
        requires
            self.wf(),
        ensures
            match found {
                Some(addresses) => live_answer(self@.cache, hostname@, now) == Some(addresses@),
                None => live_answer(self@.cache, hostname@, now) is None,
            },
    {
        self.cache.get(hostname, now)
    }

    /// The lookup in flight for the host, if there is one.
    pub fn pending(&self, hostname: &Hostname) -> (found: Option<&PendingLookup>)
        requires
            self.wf(),
        ensures
            match found {
                Some(lookup) => self@.pending.contains_key(hostname@)
                    && self@.pending[hostname@] == lookup.record() && lookup.hostname@ == hostname@,
                None => !self@.pending.contains_key(hostname@),
            },
    {
        match self.position(hostname) {
            Some(i) => Some(&self.pending[i]),
            None => None,
        }
    }
}

} // verus!

//! The coordinator as a state machine over mathematical values: its state,
//! the events it takes, and the state and action that follow each event.

use crate::address::{AnswerView, IpAddress, Ttl};
use crate::cache::{live_answer, stored, CachedAnswer};
use crate::failure::{CapabilityError, ResolutionError};
use crate::strategy::{
    interpreted, lemma_finished_with_addresses, lemma_suspended_at_network, run_from,
    ProgressView, Strategy,
};
use vstd::prelude::*;

verus! {

/// A lookup in flight, as a mathematical value.
pub struct PendingView {
    /// The callers that wait for the result, in the order in which they came.
    pub waiters: Seq<u64>,
    /// The position of the leaf whose call is in flight.
    pub attempt: nat,
    /// The number under which that call was issued.
    pub call: u64,
    /// When it was issued, and how long it may take, in milliseconds.
    pub issued_at: u64,
    pub timeout: u64,
}

impl PendingView {
    /// The call is overdue once its bound has passed since it was issued.
    pub open spec fn overdue(self, now: u64) -> bool {
        now >= self.issued_at + self.timeout
    }
}

/// What the host process has to do after an event.
pub enum ActionView {
    /// Hand the caller this result; it does not wait.
    Answer(Result<Seq<IpAddress>, ResolutionError>),
    /// Suspend the caller: a lookup for its host is in flight.
    Wait,
    /// Call the DNS stack for the host, within the bound, and report back
    /// under the call's number. Whoever asked is suspended meanwhile.
    Invoke { hostname: Seq<char>, call: u64, timeout: u64 },
    /// Wake these callers, each with this one result.
    Release { waiters: Seq<u64>, outcome: Result<Seq<IpAddress>, ResolutionError> },
    /// Nothing: the event was stale.
    Ignore,
}

/// The addresses of a result.
pub open spec fn addresses_of(outcome: Result<AnswerView, ResolutionError>) -> Result<
    Seq<IpAddress>,
    ResolutionError,
> {
    match outcome {
        Ok(answer) => Ok(answer.addresses),
        Err(e) => Err(e),
    }
}

/// The lifetime under which an answer is cached: its own, or the default.
pub open spec fn effective_ttl(ttl: Option<Ttl>, default_ttl: Ttl) -> Ttl {
    match ttl {
        Some(t) => t,
        None => default_ttl,
    }
}

/// The number of the call after `call`; the numbers wrap around.
pub open spec fn next_call_after(call: u64) -> u64 {
    if call == u64::MAX {
        0
    } else {
        (call + 1) as u64
    }
}

/// The waiters without `waiter`.
pub open spec fn without(waiters: Seq<u64>, waiter: u64) -> Seq<u64> {
    if waiters.contains(waiter) {
        waiters.remove(waiters.index_of(waiter))
    } else {
        waiters
    }
}

/// The waiters with `waiter` among them.
pub open spec fn joined(waiters: Seq<u64>, waiter: u64) -> Seq<u64> {
    if waiters.contains(waiter) {
        waiters
    } else {
        waiters.push(waiter)
    }
}

/// The state of a coordinator as a mathematical value.
pub struct CoordinatorView {
    /// The leaves of the configured strategy, in the order of trial.
    pub leaves: Seq<Strategy>,
    pub default_timeout: u64,
    pub default_ttl: Ttl,
    pub cache: Map<Seq<char>, CachedAnswer>,
    /// The lookups in flight, by host: never two for one host.
    pub pending: Map<Seq<char>, PendingView>,
    /// The number that the next call will get.
    pub next_call: u64,
}

impl CoordinatorView {
    /// The bound on a call of the leaf at `attempt`.
    pub open spec fn timeout_at(self, attempt: nat) -> u64 {
        match self.leaves[attempt as int] {
            Strategy::Network(resolver) => resolver.bound(self.default_timeout),
            _ => self.default_timeout,
        }
    }

    /// A lookup in flight stands at a network leaf, is bounded as that leaf
    /// says, and has no waiter twice.
    pub open spec fn valid_pending(self, lookup: PendingView) -> bool {
        &&& lookup.attempt < self.leaves.len()
        &&& self.leaves[lookup.attempt as int] is Network
        &&& lookup.timeout == self.timeout_at(lookup.attempt)
        &&& lookup.waiters.no_duplicates()
    }

    /// No leaf is a chain, every lookup in flight is valid, and no cached
    /// answer is without addresses.
    pub open spec fn wf(self) -> bool {
        &&& forall|i: int| 0 <= i < self.leaves.len() ==> !(#[trigger] self.leaves[i] is Failover)
        &&& forall|h: Seq<char>| #[trigger]
            self.pending.contains_key(h) ==> self.valid_pending(self.pending[h])
        &&& forall|h: Seq<char>| #[trigger]
            self.cache.contains_key(h) ==> self.cache[h].addresses.len() > 0
    }

    /// The state after the lookup for `host` ended at `now`: it is no longer
    /// in flight, and its answer, if it has one, is in the cache. An error is
    /// never cached.
    pub open spec fn settle(
        self,
        host: Seq<char>,
        outcome: Result<AnswerView, ResolutionError>,
        now: u64,
    ) -> CoordinatorView {
        match outcome {
            Ok(answer) => CoordinatorView {
                cache: stored(
                    self.cache,
                    host,
                    answer.addresses,
                    effective_ttl(answer.ttl, self.default_ttl),
                    now,
                ),
                pending: self.pending.remove(host),
                ..self
            },
            Err(_) => CoordinatorView { pending: self.pending.remove(host), ..self },
        }
    }

    /// The state in which the lookup for `host` stands at the leaf `attempt`,
    /// whose call is issued at `now` under the next number.
    pub open spec fn suspend(
        self,
        host: Seq<char>,
        waiters: Seq<u64>,
        attempt: nat,
        now: u64,
    ) -> CoordinatorView {
        CoordinatorView {
            pending: self.pending.insert(
                host,
                PendingView {
                    waiters,
                    attempt,
                    call: self.next_call,
                    issued_at: now,
                    timeout: self.timeout_at(attempt),
                },
            ),
            next_call: next_call_after(self.next_call),
            ..self
        }
    }

    /// What follows once the chain got to `progress` for `host`. A finished
    /// lookup is settled and its result goes to the one caller directly
    /// (`direct`) or to all waiters; a suspended one is in flight from now on
    /// and the DNS stack is to be called.
    pub open spec fn proceed(
        self,
        host: Seq<char>,
        waiters: Seq<u64>,
        progress: ProgressView,
        now: u64,
        direct: bool,
    ) -> (CoordinatorView, ActionView) {
        match progress {
            ProgressView::Finished(outcome) => (
                self.settle(host, outcome, now),
                if direct {
                    ActionView::Answer(addresses_of(outcome))
                } else {
                    ActionView::Release { waiters, outcome: addresses_of(outcome) }
                },
            ),
            ProgressView::Suspended(attempt) => (
                self.suspend(host, waiters, attempt, now),
                ActionView::Invoke {
                    hostname: host,
                    call: self.next_call,
                    timeout: self.timeout_at(attempt),
                },
            ),
        }
    }

    /// The state in which `waiter` waits for the lookup of `host` too.
    pub open spec fn join(self, host: Seq<char>, waiter: u64) -> CoordinatorView {
        let lookup = self.pending[host];
        CoordinatorView {
            pending: self.pending.insert(
                host,
                PendingView { waiters: joined(lookup.waiters, waiter), ..lookup },
            ),
            ..self
        }
    }

    /// A caller asks for `host` at `now`. A live cache entry answers at once
    /// and nothing changes. Else the caller joins the lookup in flight for
    /// that host if there is one. Else the strategy runs from its first leaf.
    pub open spec fn resolve(self, host: Seq<char>, waiter: u64, now: u64) -> (
        CoordinatorView,
        ActionView,
    ) {
        match live_answer(self.cache, host, now) {
            Some(addresses) => (self, ActionView::Answer(Ok(addresses))),
            None => if self.pending.contains_key(host) {
                (self.join(host, waiter), ActionView::Wait)
            } else {
                self.proceed(host, seq![waiter], run_from(self.leaves, host, 0, None), now, true)
            },
        }
    }

    /// How far the chain gets for `host` once the call of the leaf at
    /// `attempt` is reported: a good report ends it, a bad one sends it on to
    /// the leaves behind.
    pub open spec fn progress_after(
        self,
        host: Seq<char>,
        attempt: nat,
        report: Result<AnswerView, CapabilityError>,
    ) -> ProgressView {
        match interpreted(report) {
            Ok(answer) => ProgressView::Finished(Ok(answer)),
            Err(e) => run_from(self.leaves, host, attempt + 1, Some(e)),
        }
    }

    /// The DNS stack reports on the call numbered `call` for `host`. A report
    /// on any call but the one in flight for that host is ignored.
    pub open spec fn complete(
        self,
        host: Seq<char>,
        call: u64,
        report: Result<AnswerView, CapabilityError>,
        now: u64,
    ) -> (CoordinatorView, ActionView) {
        if self.pending.contains_key(host) && self.pending[host].call == call {
            let lookup = self.pending[host];
            let progress = self.progress_after(host, lookup.attempt, report);
            self.proceed(host, lookup.waiters, progress, now, false)
        } else {
            (self, ActionView::Ignore)
        }
    }

    /// The timer of the call numbered `call` for `host` fires at `now`. If
    /// that call is still in flight and overdue, it counts as timed out.
    pub open spec fn expire(self, host: Seq<char>, call: u64, now: u64) -> (
        CoordinatorView,
        ActionView,
    ) {
        if self.pending.contains_key(host) && self.pending[host].call == call
            && self.pending[host].overdue(now) {
            self.complete(host, call, Err(CapabilityError::TimedOut), now)
        } else {
            (self, ActionView::Ignore)
        }
    }

    /// A caller gives up waiting for `host`. The lookup stays in flight for
    /// the others, and for the cache.
    pub open spec fn abandon(self, host: Seq<char>, waiter: u64) -> CoordinatorView {
        if self.pending.contains_key(host) {
            let lookup = self.pending[host];
            CoordinatorView {
                pending: self.pending.insert(
                    host,
                    PendingView { waiters: without(lookup.waiters, waiter), ..lookup },
                ),
                ..self
            }
        } else {
            self
        }
    }
}

/// Each transition keeps the state well formed.
pub proof fn lemma_transitions_keep_wf(
    state: CoordinatorView,
    host: Seq<char>,
    waiter: u64,
    call: u64,
    report: Result<AnswerView, CapabilityError>,
    now: u64,
)
    requires
        state.wf(),
    ensures
        state.resolve(host, waiter, now).0.wf(),
        state.complete(host, call, report, now).0.wf(),
        state.expire(host, call, now).0.wf(),
        state.abandon(host, waiter).wf(),
{
    lemma_suspended_at_network(state.leaves, host, 0, None);
    lemma_finished_with_addresses(state.leaves, host, 0, None);
    if state.pending.contains_key(host) {
        let lookup = state.pending[host];
        assert(state.valid_pending(lookup));
        lemma_report_keeps_wf(state, host, report, now);
        lemma_report_keeps_wf(state, host, Err(CapabilityError::TimedOut), now);
        if lookup.waiters.contains(waiter) {
            let rest = without(lookup.waiters, waiter);
            let i = lookup.waiters.index_of(waiter);
            assert forall|a: int, b: int|
                0 <= a < rest.len() && 0 <= b < rest.len() && a != b implies rest[a] != rest[b] by {
                assert(rest[a] == lookup.waiters[if a < i { a } else { a + 1 }]);
                assert(rest[b] == lookup.waiters[if b < i { b } else { b + 1 }]);
            }
        }
    }
}

proof fn lemma_report_keeps_wf(
    state: CoordinatorView,
    host: Seq<char>,
    report: Result<AnswerView, CapabilityError>,
    now: u64,
)
    requires
        state.wf(),
        state.pending.contains_key(host),
    ensures
        state.proceed(
            host,
            state.pending[host].waiters,
            state.progress_after(host, state.pending[host].attempt, report),
            now,
            false,
        ).0.wf(),
{
    let lookup = state.pending[host];
    assert(state.valid_pending(lookup));
    match interpreted(report) {
        Ok(answer) => {},
        Err(e) => {
            lemma_suspended_at_network(state.leaves, host, lookup.attempt + 1, Some(e));
            lemma_finished_with_addresses(state.leaves, host, lookup.attempt + 1, Some(e));
        },
    }
}

} // verus!

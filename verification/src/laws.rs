//! What holds of the coordinator as a whole, proved from its transitions.

use crate::address::{AnswerView, IpAddress, Ttl};
use crate::cache::{live_answer, stored, swept, CachedAnswer};
use crate::failure::{CapabilityError, ResolutionError};
use crate::model::{addresses_of, lemma_transitions_keep_wf, ActionView, CoordinatorView};
use crate::strategy::{
    fixture_answer, interpreted, last_error, lemma_finished_with_addresses,
    lemma_suspended_at_network, run_from, ProgressView, Strategy,
};
use vstd::prelude::*;

verus! {

/// While a cached answer lives, asking for its host again gives the same
/// addresses at once: nothing is called, and the state stays as it is, so the
/// same holds of every further question.
pub proof fn law_live_entry_answers(state: CoordinatorView, host: Seq<char>, waiter: u64, now: u64)
    requires
        state.cache.contains_key(host),
        now <= state.cache[host].inserted_at + state.cache[host].ttl.millis,
    ensures
        state.resolve(host, waiter, now) == (
            state,
            ActionView::Answer(Ok(state.cache[host].addresses)),
        ),
{
}

/// A caller that got addresses for a host gets the same addresses again for
/// as long as the entry that the first question left in the cache lives, and
/// no call is made for it.
pub proof fn law_repeated_resolve_is_idempotent(
    state: CoordinatorView,
    host: Seq<char>,
    first: u64,
    asked_at: u64,
    second: u64,
    again_at: u64,
)
    requires
        ({
            let (next, action) = state.resolve(host, first, asked_at);
            &&& action matches ActionView::Answer(Ok(_))
            &&& next.cache.contains_key(host)
            &&& again_at <= next.cache[host].inserted_at + next.cache[host].ttl.millis
        }),
    ensures
        ({
            let (next, action) = state.resolve(host, first, asked_at);
            next.resolve(host, second, again_at) == (next, action)
        }),
{
}

/// Once a lookup was completed with addresses, every question for its host
/// within the lifetime of the cached answer gets those addresses, and no call
/// is made for it.
pub proof fn law_completed_lookup_is_served_from_cache(
    state: CoordinatorView,
    host: Seq<char>,
    call: u64,
    report: Result<AnswerView, CapabilityError>,
    completed_at: u64,
    waiter: u64,
    now: u64,
)
    requires
        ({
            let (next, action) = state.complete(host, call, report, completed_at);
            &&& action matches ActionView::Release { outcome: Ok(_), .. }
            &&& next.cache.contains_key(host)
            &&& now <= completed_at + next.cache[host].ttl.millis
        }),
    ensures
        ({
            let (next, action) = state.complete(host, call, report, completed_at);
            next.resolve(host, waiter, now) == (next, ActionView::Answer(action->outcome))
        }),
{
}

/// The state after the callers `waiters` asked for `host`, one after the
/// other, the caller at position `i` at the time `times[i]`.
pub open spec fn after_asking(
    state: CoordinatorView,
    host: Seq<char>,
    waiters: Seq<u64>,
    times: Seq<u64>,
) -> CoordinatorView
    decreases waiters.len(),
{
    if waiters.len() == 0 {
        state
    } else {
        let before = after_asking(state, host, waiters.drop_last(), times.drop_last());
        before.resolve(host, waiters.last(), times.last()).0
    }
}

/// What the caller at position `i` was told.
pub open spec fn told(
    state: CoordinatorView,
    host: Seq<char>,
    waiters: Seq<u64>,
    times: Seq<u64>,
    i: int,
) -> ActionView {
    let before = after_asking(state, host, waiters.take(i), times.take(i));
    before.resolve(host, waiters[i], times[i]).1
}

/// What a report on the one call may lead to: the release of exactly the
/// callers that wait, or another call for which they all keep waiting.
pub open spec fn serves_all(
    waiting: CoordinatorView,
    host: Seq<char>,
    waiters: Seq<u64>,
    result: (CoordinatorView, ActionView),
) -> bool {
    match result.1 {
        ActionView::Release { waiters: released, .. } => released == waiters
            && !result.0.pending.contains_key(host),
        ActionView::Invoke { hostname, .. } => hostname == host && result.0.pending.contains_key(
            host,
        ) && result.0.pending[host].waiters == waiters,
        _ => false,
    }
}

/// Any number of callers that ask for one host while the cache cannot answer
/// cause one call: the first is told to make it, every later one to wait, and
/// all of them wait on the one lookup. Whatever is reported on that call
/// releases exactly these callers with one result, unless the chain goes on
/// to another call for them.
pub proof fn law_one_call_for_many_callers(
    state: CoordinatorView,
    host: Seq<char>,
    waiters: Seq<u64>,
    times: Seq<u64>,
)
    requires
        state.wf(),
        waiters.len() == times.len(),
        waiters.len() >= 1,
        waiters.no_duplicates(),
        !state.pending.contains_key(host),
        forall|i: int| 0 <= i < times.len() ==> live_answer(state.cache, host, times[i]) is None,
        run_from(state.leaves, host, 0, None) is Suspended,
    ensures
        told(state, host, waiters, times, 0) matches ActionView::Invoke { hostname, call, .. }
            && hostname == host && call == state.next_call,
        forall|i: int|
            1 <= i < waiters.len() ==> told(state, host, waiters, times, i) == ActionView::Wait,
        ({
            let waiting = after_asking(state, host, waiters, times);
            &&& waiting.wf()
            &&& waiting.cache == state.cache
            &&& waiting.pending.contains_key(host)
            &&& waiting.pending[host].waiters == waiters
            &&& waiting.pending[host].call == state.next_call
            &&& forall|report: Result<AnswerView, CapabilityError>, now: u64|
                serves_all(
                    waiting,
                    host,
                    waiters,
                    #[trigger] waiting.complete(host, state.next_call, report, now),
                )
        }),
    decreases waiters.len(),
{
    lemma_suspended_at_network(state.leaves, host, 0, None);
    if waiters.len() == 1 {
        assert(waiters.take(0) =~= Seq::<u64>::empty());
        assert(waiters.drop_last() =~= Seq::<u64>::empty());
        assert(after_asking(state, host, waiters.drop_last(), times.drop_last()) == state);
        assert(after_asking(state, host, waiters.take(0), times.take(0)) == state);
        assert(waiters =~= seq![waiters.last()]);
    } else {
        let front = waiters.drop_last();
        let front_times = times.drop_last();
        law_one_call_for_many_callers(state, host, front, front_times);
        let before = after_asking(state, host, front, front_times);
        assert(!front.contains(waiters.last())) by {
            if front.contains(waiters.last()) {
                let j = front.index_of(waiters.last());
                assert(waiters[j] == waiters[waiters.len() - 1]);
            }
        }
        assert(before.pending[host].waiters.push(waiters.last()) =~= waiters);
        assert forall|i: int| 0 <= i < waiters.len() implies told(state, host, waiters, times, i)
            == (if i < front.len() {
            told(state, host, front, front_times, i)
        } else {
            ActionView::Wait
        }) by {
            if i < front.len() {
                assert(waiters.take(i) =~= front.take(i));
                assert(times.take(i) =~= front_times.take(i));
            } else {
                assert(waiters.take(i) =~= front);
                assert(times.take(i) =~= front_times);
            }
        }
        let timed_out = Err(CapabilityError::TimedOut);
        lemma_transitions_keep_wf(before, host, waiters.last(), 0, timed_out, times.last());
    }
    let waiting = after_asking(state, host, waiters, times);
    assert forall|report: Result<AnswerView, CapabilityError>, now: u64|
        serves_all(
            waiting,
            host,
            waiters,
            #[trigger] waiting.complete(host, state.next_call, report, now),
        ) by {}
}

/// An entry stored with a lifetime is no longer served once the clock is past
/// the time of storing plus that lifetime, and a sweep at such a time takes
/// it out.
pub proof fn law_entry_expires(
    cache: Map<Seq<char>, CachedAnswer>,
    host: Seq<char>,
    addresses: Seq<IpAddress>,
    ttl: Ttl,
    stored_at: u64,
    now: u64,
)
    requires
        now > stored_at + ttl.millis,
    ensures
        live_answer(stored(cache, host, addresses, ttl, stored_at), host, now) is None,
        !swept(stored(cache, host, addresses, ttl, stored_at), now).contains_key(host),
{
}

/// Up to and including the last millisecond of its lifetime, a stored entry
/// is served as it was stored.
pub proof fn law_entry_lives(
    cache: Map<Seq<char>, CachedAnswer>,
    host: Seq<char>,
    addresses: Seq<IpAddress>,
    ttl: Ttl,
    stored_at: u64,
    now: u64,
)
    requires
        ttl.millis > 0,
        now <= stored_at + ttl.millis,
    ensures
        live_answer(stored(cache, host, addresses, ttl, stored_at), host, now) == Some(addresses),
{
}

/// A question for a host whose entry has expired is not answered from the
/// cache: with a network strategy in front and nothing in flight for the
/// host, a fresh call is issued.
pub proof fn law_expired_entry_causes_fresh_call(
    state: CoordinatorView,
    host: Seq<char>,
    waiter: u64,
    now: u64,
)
    requires
        state.cache.contains_key(host) ==> state.cache[host].expired(now),
        !state.pending.contains_key(host),
        state.leaves.len() > 0,
        state.leaves[0] is Network,
    ensures
        ({
            let (next, action) = state.resolve(host, waiter, now);
            &&& action == (ActionView::Invoke {
                hostname: host,
                call: state.next_call,
                timeout: state.timeout_at(0),
            })
            &&& next.pending.contains_key(host)
            &&& next.pending[host].waiters == seq![waiter]
            &&& next.pending[host].issued_at == now
        }),
{
}

/// In a chain of fixture tables, the first table that knows the host decides:
/// its answer is the result, and the errors of the tables before it are not
/// seen.
pub proof fn law_failover_first_success(
    leaves: Seq<Strategy>,
    host: Seq<char>,
    start: nat,
    winner: nat,
    last: Option<ResolutionError>,
)
    requires
        start <= winner < leaves.len(),
        forall|i: int|
            start <= i < winner ==> (#[trigger] leaves[i]) is Fixture && fixture_answer(
                leaves[i]->Fixture_0@,
                host,
            ) is Err,
        leaves[winner as int] is Fixture,
        fixture_answer(leaves[winner as int]->Fixture_0@, host) is Ok,
    ensures
        run_from(leaves, host, start, last) == ProgressView::Finished(
            fixture_answer(leaves[winner as int]->Fixture_0@, host),
        ),
    decreases winner - start,
{
    if start < winner {
        assert(leaves[start as int] is Fixture);
        let met = Some(ResolutionError::NotFound);
        law_failover_first_success(leaves, host, start + 1, winner, met);
    }
}

/// A chain of fixture tables none of which knows the host fails with the
/// error of the last table tried; with no table to try it fails with the
/// error met before, or with `NotFound` if there was none.
pub proof fn law_failover_all_fail(
    leaves: Seq<Strategy>,
    host: Seq<char>,
    start: nat,
    last: Option<ResolutionError>,
)
    requires
        forall|i: int|
            start <= i < leaves.len() ==> (#[trigger] leaves[i]) is Fixture && fixture_answer(
                leaves[i]->Fixture_0@,
                host,
            ) is Err,
    ensures
        run_from(leaves, host, start, last) == ProgressView::Finished(
            if start < leaves.len() {
                fixture_answer(leaves[leaves.len() - 1]->Fixture_0@, host)
            } else {
                Err(last_error(last))
            },
        ),
    decreases leaves.len() - start,
{
    if start < leaves.len() {
        assert(leaves[start as int] is Fixture);
        law_failover_all_fail(leaves, host, start + 1, Some(ResolutionError::NotFound));
    }
}

/// When the call in flight fails and the next leaf is a fixture table that
/// knows the host, the waiters get the table's answer and the failure of the
/// call is not seen.
pub proof fn law_failover_after_failed_call(
    state: CoordinatorView,
    host: Seq<char>,
    report: Result<AnswerView, CapabilityError>,
    now: u64,
)
    requires
        state.pending.contains_key(host),
        interpreted(report) is Err,
        state.pending[host].attempt + 1 < state.leaves.len(),
        state.leaves[state.pending[host].attempt as int + 1] is Fixture,
        fixture_answer(state.leaves[state.pending[host].attempt as int + 1]->Fixture_0@, host) is Ok,
    ensures
        ({
            let lookup = state.pending[host];
            let fixtures = state.leaves[lookup.attempt as int + 1]->Fixture_0@;
            state.complete(host, lookup.call, report, now).1 == (ActionView::Release {
                waiters: lookup.waiters,
                outcome: Ok(fixtures[host]),
            })
        }),
{
}

/// A call that is not reported on within its bound fails with `Timeout` for
/// every caller that waits for it, those that came while it was in flight
/// among them, when its timer fires and no leaf is left to go on to.
pub proof fn law_overdue_call_times_out(state: CoordinatorView, host: Seq<char>, now: u64)
    requires
        state.pending.contains_key(host),
        now >= state.pending[host].issued_at + state.pending[host].timeout,
        state.pending[host].attempt + 1 >= state.leaves.len(),
    ensures
        ({
            let lookup = state.pending[host];
            let (next, action) = state.expire(host, lookup.call, now);
            &&& action == (ActionView::Release {
                waiters: lookup.waiters,
                outcome: Err(ResolutionError::Timeout),
            })
            &&& next == state.settle(host, Err(ResolutionError::Timeout), now)
            &&& !next.pending.contains_key(host)
            &&& next.cache == state.cache
        }),
{
}

/// The bound of a call runs from the moment at which it is issued: a caller
/// that causes a call at `asked_at` leaves a lookup that is overdue exactly
/// from `asked_at` plus the bound named in the action.
pub proof fn law_call_is_bounded_from_issue(
    state: CoordinatorView,
    host: Seq<char>,
    waiter: u64,
    asked_at: u64,
    now: u64,
)
    requires
        state.resolve(host, waiter, asked_at).1 is Invoke,
    ensures
        ({
            let (next, action) = state.resolve(host, waiter, asked_at);
            &&& next.pending.contains_key(host)
            &&& next.pending[host].call == action->call
            &&& next.pending[host].overdue(now) <==> now >= asked_at + action->timeout
        }),
{
}

/// A report that comes after its call timed out is ignored: the lookup it
/// belonged to is gone, or stands at another call.
pub proof fn law_late_report_is_ignored(
    state: CoordinatorView,
    host: Seq<char>,
    call: u64,
    report: Result<AnswerView, CapabilityError>,
    now: u64,
)
    requires
        state.pending.contains_key(host) ==> state.pending[host].call != call,
    ensures
        state.complete(host, call, report, now) == (state, ActionView::Ignore),
{
}

/// A caller that gives up leaves the lookup in flight and the other waiters
/// waiting.
pub proof fn law_abandon_keeps_lookup(
    state: CoordinatorView,
    host: Seq<char>,
    waiter: u64,
    other: u64,
)
    requires
        state.wf(),
        state.pending.contains_key(host),
        other != waiter,
    ensures
        ({
            let lookup = state.pending[host];
            let next = state.abandon(host, waiter);
            &&& next.pending.contains_key(host)
            &&& next.pending[host].call == lookup.call
            &&& !next.pending[host].waiters.contains(waiter)
            &&& next.pending[host].waiters.contains(other) == lookup.waiters.contains(other)
            &&& next.cache == state.cache
        }),
{
    let waiters = state.pending[host].waiters;
    assert(state.valid_pending(state.pending[host]));
    if waiters.contains(waiter) {
        let i = waiters.index_of(waiter);
        let rest = waiters.remove(i);
        assert forall|a: int| 0 <= a < rest.len() implies rest[a] == waiters[if a < i {
            a
        } else {
            a + 1
        }] by {}
        if waiters.contains(other) {
            let j = waiters.index_of(other);
            assert(rest[if j < i { j } else { j - 1 }] == other);
        }
        if rest.contains(other) {
            let a = rest.index_of(other);
            assert(waiters[if a < i { a } else { a + 1 }] == other);
        }
        if rest.contains(waiter) {
            let a = rest.index_of(waiter);
            assert(waiters[if a < i { a } else { a + 1 }] == waiter);
        }
    }
}

/// Whoever is handed a success is handed at least one address, whether it
/// comes from the cache, from a fixture table or from the DNS stack.
pub proof fn law_success_has_addresses(
    state: CoordinatorView,
    host: Seq<char>,
    waiter: u64,
    call: u64,
    report: Result<AnswerView, CapabilityError>,
    now: u64,
)
    requires
        state.wf(),
    ensures
        state.resolve(host, waiter, now).1 matches ActionView::Answer(Ok(addresses))
            ==> addresses.len() > 0,
        state.complete(host, call, report, now).1 matches ActionView::Release {
            outcome: Ok(addresses),
            ..
        } ==> addresses.len() > 0,
        state.expire(host, call, now).1 matches ActionView::Release { outcome: Ok(addresses), .. }
            ==> addresses.len() > 0,
{
    lemma_finished_with_addresses(state.leaves, host, 0, None);
    if state.pending.contains_key(host) {
        let attempt = state.pending[host].attempt;
        match interpreted(report) {
            Ok(_) => {},
            Err(e) => {
                lemma_finished_with_addresses(state.leaves, host, attempt + 1, Some(e));
            },
        }
        let timeout = Some(ResolutionError::Timeout);
        lemma_finished_with_addresses(state.leaves, host, attempt + 1, timeout);
    }
    if live_answer(state.cache, host, now) is Some {
        assert(state.cache.contains_key(host));
    }
}

/// A failure is never cached: an event that ends in an error leaves the cache
/// as it was.
pub proof fn law_failure_is_not_cached(
    state: CoordinatorView,
    host: Seq<char>,
    waiter: u64,
    call: u64,
    report: Result<AnswerView, CapabilityError>,
    now: u64,
)
    ensures
        ({
            let (next, action) = state.resolve(host, waiter, now);
            action matches ActionView::Answer(Err(_)) ==> next.cache == state.cache
        }),
        ({
            let (next, action) = state.complete(host, call, report, now);
            action matches ActionView::Release { outcome: Err(_), .. } ==> next.cache == state.cache
        }),
        ({
            let (next, action) = state.expire(host, call, now);
            action matches ActionView::Release { outcome: Err(_), .. } ==> next.cache == state.cache
        }),
{
}

/// Holds of a state whose cache has, for each host, what the fixture table
/// answers for it.
pub open spec fn cache_agrees_with(
    state: CoordinatorView,
    fixtures: Map<Seq<char>, Seq<IpAddress>>,
) -> bool {
    forall|h: Seq<char>| #[trigger]
        state.cache.contains_key(h) ==> fixture_answer(fixtures, h) is Ok && fixture_answer(
            fixtures,
            h,
        )->Ok_0.addresses == state.cache[h].addresses
}

/// A coordinator whose strategy is one fixture table answers every question
/// at once and always alike: with the addresses registered for the host, or
/// with `NotFound` for a host that has none. Nothing is ever in flight, and
/// the cache keeps agreeing with the table.
pub proof fn law_fixture_answers_are_fixed(
    state: CoordinatorView,
    host: Seq<char>,
    waiter: u64,
    now: u64,
)
    requires
        state.wf(),
        state.leaves.len() == 1,
        state.leaves[0] is Fixture,
        cache_agrees_with(state, state.leaves[0]->Fixture_0@),
    ensures
        ({
            let fixtures = state.leaves[0]->Fixture_0@;
            let (next, action) = state.resolve(host, waiter, now);
            &&& action == ActionView::Answer(addresses_of(fixture_answer(fixtures, host)))
            &&& next.wf()
            &&& next.leaves == state.leaves
            &&& next.pending == state.pending
            &&& state.pending == Map::<Seq<char>, crate::model::PendingView>::empty()
            &&& cache_agrees_with(next, fixtures)
        }),
{
    let fixtures = state.leaves[0]->Fixture_0@;
    assert forall|h: Seq<char>| !state.pending.contains_key(h) by {
        if state.pending.contains_key(h) {
            assert(state.valid_pending(state.pending[h]));
        }
    }
    assert(state.pending =~= Map::<Seq<char>, crate::model::PendingView>::empty());
    lemma_transitions_keep_wf(state, host, waiter, 0, Err(CapabilityError::TimedOut), now);
    reveal_with_fuel(run_from, 3);
    let next = state.resolve(host, waiter, now).0;
    assert(next.pending =~= state.pending);
    assert forall|h: Seq<char>| #[trigger] next.cache.contains_key(h) implies fixture_answer(
        fixtures,
        h,
    ) is Ok && fixture_answer(fixtures, h)->Ok_0.addresses == next.cache[h].addresses by {
        if h != host {
            assert(state.cache.contains_key(h));
        } else if live_answer(state.cache, host, now) is Some {
            assert(state.cache.contains_key(h));
        }
    }
}

} // verus!

//! The resolver strategies: the network, fixtures, and failover chains.

use crate::address::{AddressSet, Answer, AnswerView, IpAddress};
use crate::failure::{resolution_error_of, CapabilityError, ResolutionError};
use crate::hostname::{normalize, Hostname};
use vstd::prelude::*;

verus! {

/// A result whose answer is read as a mathematical value.
pub open spec fn answer_view<E>(result: Result<Answer, E>) -> Result<AnswerView, E> {
    match result {
        Ok(answer) => Ok(answer@),
        Err(e) => Err(e),
    }
}

/// What a fixture table answers for a host: the registered addresses if there
/// are any, without a lifetime of their own, and `NotFound` otherwise.
pub open spec fn fixture_answer(
    fixtures: Map<Seq<char>, Seq<IpAddress>>,
    host: Seq<char>,
) -> Result<AnswerView, ResolutionError> {
    if fixtures.contains_key(host) && fixtures[host].len() > 0 {
        Ok(AnswerView { addresses: fixtures[host], ttl: None })
    } else {
        Err(ResolutionError::NotFound)
    }
}

/// One registered host with its addresses.
#[derive(Debug)]
struct Fixture {
    hostname: Hostname,
    addresses: AddressSet,
}

/// The table that a list of registrations stands for: a later registration of
/// a host replaces an earlier one.
spec fn table_of(entries: Seq<Fixture>) -> Map<Seq<char>, Seq<IpAddress>>
    decreases entries.len(),
{
    if entries.len() == 0 {
        Map::empty()
    } else {
        table_of(entries.drop_last()).insert(entries.last().hostname@, entries.last().addresses@)
    }
}

proof fn lemma_table_found(entries: Seq<Fixture>, i: int)
    requires
        0 <= i < entries.len(),
        forall|j: int| i < j < entries.len() ==> entries[j].hostname@ != entries[i].hostname@,
    ensures
        table_of(entries).contains_key(entries[i].hostname@),
        table_of(entries)[entries[i].hostname@] == entries[i].addresses@,
    decreases entries.len(),
{
    if i < entries.len() - 1 {
        let front = entries.drop_last();
        assert(front[i] == entries[i]);
        assert forall|j: int| i < j < front.len() implies front[j].hostname@
            != front[i].hostname@ by {
            assert(front[j] == entries[j]);
        }
        lemma_table_found(front, i);
    }
}

proof fn lemma_table_absent(entries: Seq<Fixture>, host: Seq<char>)
    requires
        forall|j: int| 0 <= j < entries.len() ==> entries[j].hostname@ != host,
    ensures
        !table_of(entries).contains_key(host),
    decreases entries.len(),
{
    if entries.len() > 0 {
        let front = entries.drop_last();
        assert forall|j: int| 0 <= j < front.len() implies front[j].hostname@ != host by {
            assert(front[j] == entries[j]);
        }
        lemma_table_absent(front, host);
    }
}

proof fn lemma_table_replaced(entries: Seq<Fixture>, i: int, entry: Fixture)
    requires
        0 <= i < entries.len(),
        entries[i].hostname@ == entry.hostname@,
        forall|j: int| i < j < entries.len() ==> entries[j].hostname@ != entry.hostname@,
    ensures
        table_of(entries.update(i, entry)) == table_of(entries).insert(
            entry.hostname@,
            entry.addresses@,
        ),
    decreases entries.len(),
{
    let replaced = entries.update(i, entry);
    let front = entries.drop_last();
    if i == entries.len() - 1 {
        assert(replaced.drop_last() =~= front);
        assert(table_of(replaced) =~= table_of(entries).insert(entry.hostname@, entry.addresses@));
    } else {
        assert(replaced.drop_last() =~= front.update(i, entry));
        assert(front[i] == entries[i]);
        assert forall|j: int| i < j < front.len() implies front[j].hostname@
            != entry.hostname@ by {
            assert(front[j] == entries[j]);
        }
        lemma_table_replaced(front, i, entry);
        assert(table_of(replaced) =~= table_of(entries).insert(entry.hostname@, entry.addresses@));
    }
}

/// Answers from a table registered beforehand, for tests that must not depend
/// on the network.
#[derive(Debug)]
pub struct FixtureResolver {
    entries: Vec<Fixture>,
}

impl View for FixtureResolver {
    type V = Map<Seq<char>, Seq<IpAddress>>;

    closed spec fn view(&self) -> Map<Seq<char>, Seq<IpAddress>> {
        table_of(self.entries@)
    }
}

impl FixtureResolver {
    pub fn new() -> (resolver: FixtureResolver)
        ensures
            resolver@ == Map::<Seq<char>, Seq<IpAddress>>::empty(),
    {
        FixtureResolver { entries: Vec::new() }
    }

    /// The position of the registration that counts for the host: the last
    /// one under its name.
    fn position(&self, hostname: &Hostname) -> (at: Option<usize>)
        ensures
            match at {
                Some(i) => i < self.entries.len() && self.entries[i as int].hostname@ == hostname@
                    && self@.contains_key(hostname@)
                    && self@[hostname@] == self.entries[i as int].addresses@
                    && forall|j: int|
                        i < j < self.entries.len() ==> self.entries[j].hostname@ != hostname@,
                None => !self@.contains_key(hostname@),
            },
    {
        let mut i: usize = self.entries.len();
        while i > 0
            invariant
                i <= self.entries.len(),
                forall|j: int|
                    i <= j < self.entries.len() ==> self.entries[j].hostname@ != hostname@,
            decreases i,
        {
            i -= 1;
            if self.entries[i].hostname.equals(hostname) {
                proof {
                    lemma_table_found(self.entries@, i as int);
                }
                return Some(i);
            }
        }
        proof {
            lemma_table_absent(self.entries@, hostname@);
        }
        None
    }

    /// Registers the addresses of a host, in place of any registered before
    /// under the same name.
    pub fn register(&mut self, host: &str, addresses: AddressSet)
        ensures
            final(self)@ == old(self)@.insert(normalize(host@), addresses@),
    {
        let hostname = Hostname::new(host);
        let at = self.position(&hostname);
        let entry = Fixture { hostname, addresses };
        match at {
            Some(i) => {
                proof {
                    lemma_table_replaced(self.entries@, i as int, entry);
                }
                self.entries.set(i, entry);
            },
            None => {
                assert(self.entries@.push(entry).drop_last() =~= self.entries@);
                self.entries.push(entry);
            },
        }
    }

    /// The registered addresses of the host; `NotFound` for a host that was
    /// not registered or was registered without addresses.
    pub fn resolve(&self, hostname: &Hostname) -> (result: Result<Answer, ResolutionError>)
        ensures
            answer_view(result) == fixture_answer(self@, hostname@),
    {
        match self.position(hostname) {
            Some(i) => {
                if self.entries[i].addresses.is_empty() {
                    Err(ResolutionError::NotFound)
                } else {
                    Ok(Answer { addresses: self.entries[i].addresses.clone(), ttl: None })
                }
            },
            None => Err(ResolutionError::NotFound),
        }
    }
}

/// The network strategy: it hands the question to the DNS stack and bounds
/// the wait.
#[derive(Clone, Copy, Debug, PartialEq, Eq, Structural)]
pub struct NetworkResolver {
    /// The bound on one call in milliseconds; `None` leaves it to the
    /// coordinator's default.
    pub timeout: Option<u64>,
}

/// What the network strategy makes of the DNS stack's report: an answer
/// without addresses is `NotFound`, and a failure is mapped to the error a
/// caller sees.
pub open spec fn interpreted(report: Result<AnswerView, CapabilityError>) -> Result<
    AnswerView,
    ResolutionError,
> {
    match report {
        Ok(answer) => if answer.addresses.len() > 0 {
            Ok(answer)
        } else {
            Err(ResolutionError::NotFound)
        },
        Err(failure) => Err(resolution_error_of(failure)),
    }
}

impl NetworkResolver {
    /// The bound on one call: the strategy's own, or the default.
    pub open spec fn bound(self, default_timeout: u64) -> u64 {
        match self.timeout {
            Some(millis) => millis,
            None => default_timeout,
        }
    }

    /// A network strategy that waits as long as the coordinator's default says.
    pub fn new() -> (resolver: NetworkResolver)
        ensures
            resolver.timeout is None,
    {
        NetworkResolver { timeout: None }
    }

    /// A network strategy with a bound of its own, in milliseconds.
    pub fn with_timeout(millis: u64) -> (resolver: NetworkResolver)
        ensures
            resolver.timeout == Some(millis),
    {
        NetworkResolver { timeout: Some(millis) }
    }

    /// The bound on one call, in milliseconds.
    pub fn timeout_millis(&self, default_timeout: u64) -> (millis: u64)
        ensures
            millis == self.bound(default_timeout),
    {
        match self.timeout {
            Some(millis) => millis,
            None => default_timeout,
        }
    }

    /// Turns the DNS stack's report into the result of the strategy.
    pub fn interpret(report: Result<Answer, CapabilityError>) -> (result: Result<
        Answer,
        ResolutionError,
    >)
        ensures
            answer_view(result) == interpreted(answer_view(report)),
    {
        match report {
            Ok(answer) => {
                if answer.addresses.is_empty() {
                    Err(ResolutionError::NotFound)
                } else {
                    Ok(answer)
                }
            },
            Err(failure) => Err(ResolutionError::from_capability(failure)),
        }
    }
}

/// A chain of strategies tried in order until one succeeds.
#[derive(Debug)]
pub struct FailoverResolver {
    pub members: Vec<Strategy>,
}

/// A way to resolve a host.
#[derive(Debug)]
pub enum Strategy {
    Network(NetworkResolver),
    Fixture(FixtureResolver),
    Failover(FailoverResolver),
}

impl Strategy {
    /// The strategies that make calls or look up tables, in the order in which
    /// they are tried: a chain stands for its members' leaves, one after the
    /// other.
    pub open spec fn leaves(self) -> Seq<Strategy>
        decreases self,
    {
        match self {
            Strategy::Failover(chain) => leaves_of(chain.members@),
            _ => seq![self],
        }
    }

    /// Appends the strategy's leaves to `out`.
    pub fn flatten_into(self, out: &mut Vec<Strategy>)
        ensures
            final(out)@ == old(out)@ + self.leaves(),
        decreases self,
    {
        match self {
            Strategy::Failover(chain) => {
                let mut members = chain.members;
                while members.len() > 0
                    invariant
                        decreases_to!(self => members@),
                        out@ + leaves_of(members@) == old(out)@ + self.leaves(),
                    decreases members.len(),
                {
                    let ghost before = members@;
                    let ghost done = out@;
                    let first = members.remove(0);
                    assert(members@ =~= before.drop_first());
                    first.flatten_into(out);
                    assert(out@ + leaves_of(members@) =~= done + leaves_of(before));
                }
            },
            leaf => {
                out.push(leaf);
            },
        }
    }
}

pub open spec fn leaves_of(members: Seq<Strategy>) -> Seq<Strategy>
    decreases members,
{
    if members.len() == 0 {
        Seq::empty()
    } else {
        members.first().leaves() + leaves_of(members.drop_first())
    }
}

/// Among the leaves of a strategy there is no chain.
pub proof fn lemma_leaves_hold_no_chain(strategy: Strategy)
    ensures
        forall|i: int|
            0 <= i < strategy.leaves().len() ==> !(#[trigger] strategy.leaves()[i] is Failover),
    decreases strategy,
{
    match strategy {
        Strategy::Failover(chain) => {
            lemma_leaves_of_hold_no_chain(chain.members@);
        },
        _ => {},
    }
}

proof fn lemma_leaves_of_hold_no_chain(members: Seq<Strategy>)
    ensures
        forall|i: int|
            0 <= i < leaves_of(members).len() ==> !(#[trigger] leaves_of(members)[i] is Failover),
    decreases members,
{
    if members.len() > 0 {
        lemma_leaves_hold_no_chain(members.first());
        lemma_leaves_of_hold_no_chain(members.drop_first());
    }
}

/// How far a chain got with a host: it has a result, or it stands at a leaf
/// that needs a call into the DNS stack.
#[derive(Debug)]
pub enum Progress {
    Finished(Result<Answer, ResolutionError>),
    Suspended(usize),
}

/// A `Progress` as a mathematical value.
pub enum ProgressView {
    Finished(Result<AnswerView, ResolutionError>),
    Suspended(nat),
}

impl View for Progress {
    type V = ProgressView;

    open spec fn view(&self) -> ProgressView {
        match *self {
            Progress::Finished(result) => ProgressView::Finished(answer_view(result)),
            Progress::Suspended(at) => ProgressView::Suspended(at as nat),
        }
    }
}

/// The error a chain reports when no leaf is left: the last one it met, and
/// `NotFound` if it met none.
pub open spec fn last_error(last: Option<ResolutionError>) -> ResolutionError {
    match last {
        Some(e) => e,
        None => ResolutionError::NotFound,
    }
}

/// Tries the leaves from position `start` on, `last` being the error of the
/// leaf tried before. A fixture leaf that knows the host ends the run with its
/// answer; one that does not hands its error on to the next leaf. The run
/// stops at the first network leaf, whose call someone else has to make. With
/// no leaf left the run ends with the last error. A chain that stands among
/// the leaves unflattened is passed over.
pub open spec fn run_from(
    leaves: Seq<Strategy>,
    host: Seq<char>,
    start: nat,
    last: Option<ResolutionError>,
) -> ProgressView
    decreases leaves.len() - start,
{
    if start >= leaves.len() {
        ProgressView::Finished(Err(last_error(last)))
    } else {
        match leaves[start as int] {
            Strategy::Network(_) => ProgressView::Suspended(start),
            Strategy::Fixture(fixtures) => match fixture_answer(fixtures@, host) {
                Ok(answer) => ProgressView::Finished(Ok(answer)),
                Err(e) => run_from(leaves, host, start + 1, Some(e)),
            },
            Strategy::Failover(_) => run_from(leaves, host, start + 1, last),
        }
    }
}

/// Where a run of the chain is suspended, a network leaf stands.
pub proof fn lemma_suspended_at_network(
    leaves: Seq<Strategy>,
    host: Seq<char>,
    start: nat,
    last: Option<ResolutionError>,
)
    ensures
        run_from(leaves, host, start, last) matches ProgressView::Suspended(at) ==> start <= at
            < leaves.len() && leaves[at as int] is Network,
    decreases leaves.len() - start,
{
    if start < leaves.len() {
        match leaves[start as int] {
            Strategy::Network(_) => {},
            Strategy::Fixture(fixtures) => {
                let met = Some(ResolutionError::NotFound);
                lemma_suspended_at_network(leaves, host, start + 1, met);
            },
            Strategy::Failover(_) => {
                lemma_suspended_at_network(leaves, host, start + 1, last);
            },
        }
    }
}

/// A run of the chain that ends with an answer ends with addresses.
pub proof fn lemma_finished_with_addresses(
    leaves: Seq<Strategy>,
    host: Seq<char>,
    start: nat,
    last: Option<ResolutionError>,
)
    ensures
        run_from(leaves, host, start, last) matches ProgressView::Finished(Ok(answer))
            ==> answer.addresses.len() > 0,
    decreases leaves.len() - start,
{
    if start < leaves.len() {
        match leaves[start as int] {
            Strategy::Network(_) => {},
            Strategy::Fixture(fixtures) => {
                let met = Some(ResolutionError::NotFound);
                lemma_finished_with_addresses(leaves, host, start + 1, met);
            },
            Strategy::Failover(_) => {
                lemma_finished_with_addresses(leaves, host, start + 1, last);
            },
        }
    }
}

/// Runs the chain of leaves from position `start` on.
pub fn advance(
    leaves: &Vec<Strategy>,
    hostname: &Hostname,
    start: usize,
    last: Option<ResolutionError>,
) -> (progress: Progress)
    ensures
        progress@ == run_from(leaves@, hostname@, start as nat, last),
{
    let ghost goal = run_from(leaves@, hostname@, start as nat, last);
    let mut at: usize = start;
    let mut met: Option<ResolutionError> = last;
    while at < leaves.len()
        invariant
            goal == run_from(leaves@, hostname@, start as nat, last),
            run_from(leaves@, hostname@, at as nat, met) == goal,
        decreases leaves.len() - at,
    {
        match &leaves[at] {
            Strategy::Network(_) => {
                return Progress::Suspended(at);
            },
            Strategy::Fixture(fixtures) => {
                match fixtures.resolve(hostname) {
                    Ok(answer) => {
                        return Progress::Finished(Ok(answer));
                    },
                    Err(e) => {
                        met = Some(e);
                    },
                }
            },
            Strategy::Failover(_) => {},
        }
        at += 1;
    }
    match met {
        Some(e) => Progress::Finished(Err(e)),
        None => Progress::Finished(Err(ResolutionError::NotFound)),
    }
}

} // verus!

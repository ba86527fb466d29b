use dns_resolution::address::{AddressSet, Answer, IpAddress, Ttl};
use dns_resolution::failure::{CapabilityError, ResolutionError};
use dns_resolution::hostname::Hostname;
use dns_resolution::strategy::{advance, FailoverResolver, FixtureResolver, NetworkResolver, Progress, Strategy};

fn v4(a: u8, b: u8, c: u8, d: u8) -> AddressSet {
    AddressSet::from_vec(vec![IpAddress::V4(a, b, c, d)])
}

fn table(host: &str, addresses: AddressSet) -> FixtureResolver {
    let mut fixtures = FixtureResolver::new();
    fixtures.register(host, addresses);
    fixtures
}

fn finished(progress: Progress) -> Result<Answer, ResolutionError> {
    match progress {
        Progress::Finished(result) => result,
        Progress::Suspended(at) => panic!("suspended at leaf {}", at),
    }
}

#[test]
fn fixture_knows_its_host() {
    let fixtures = table("known.test", v4(1, 2, 3, 4));
    assert_eq!(
        fixtures.resolve(&Hostname::new("known.test")),
        Ok(Answer { addresses: v4(1, 2, 3, 4), ttl: None })
    );
}

#[test]
fn fixture_answers_alike_every_time() {
    let fixtures = table("known.test", v4(1, 2, 3, 4));
    let first = fixtures.resolve(&Hostname::new("known.test"));
    let second = fixtures.resolve(&Hostname::new("known.test"));
    let third = fixtures.resolve(&Hostname::new("known.test"));
    assert_eq!(first, second);
    assert_eq!(second, third);
    assert_eq!(first, Ok(Answer { addresses: v4(1, 2, 3, 4), ttl: None }));
}

#[test]
fn fixture_does_not_know_other_hosts() {
    let fixtures = table("known.test", v4(1, 2, 3, 4));
    assert_eq!(fixtures.resolve(&Hostname::new("unknown.test")), Err(ResolutionError::NotFound));
}

#[test]
fn empty_fixture_table_knows_nothing() {
    let fixtures = FixtureResolver::new();
    assert_eq!(fixtures.resolve(&Hostname::new("known.test")), Err(ResolutionError::NotFound));
}

#[test]
fn fixture_registers_under_the_normalized_name() {
    let fixtures = table("Known.TEST.", v4(1, 2, 3, 4));
    assert_eq!(
        fixtures.resolve(&Hostname::new("known.test")),
        Ok(Answer { addresses: v4(1, 2, 3, 4), ttl: None })
    );
}

#[test]
fn later_registration_replaces_the_earlier() {
    let mut fixtures = table("known.test", v4(1, 1, 1, 1));
    fixtures.register("other.test", v4(9, 9, 9, 9));
    fixtures.register("KNOWN.test", v4(2, 2, 2, 2));
    assert_eq!(
        fixtures.resolve(&Hostname::new("known.test")),
        Ok(Answer { addresses: v4(2, 2, 2, 2), ttl: None })
    );
    assert_eq!(
        fixtures.resolve(&Hostname::new("other.test")),
        Ok(Answer { addresses: v4(9, 9, 9, 9), ttl: None })
    );
}

#[test]
fn fixture_without_addresses_is_not_found() {
    let fixtures = table("hollow.test", AddressSet::new());
    assert_eq!(fixtures.resolve(&Hostname::new("hollow.test")), Err(ResolutionError::NotFound));
}

#[test]
fn fixture_keeps_the_order_of_addresses() {
    let addresses = AddressSet::from_vec(vec![
        IpAddress::V6(0, 0, 0, 0, 0, 0, 0, 1),
        IpAddress::V4(127, 0, 0, 1),
    ]);
    let fixtures = table("localhost", addresses.clone());
    assert_eq!(fixtures.resolve(&Hostname::new("localhost")), Ok(Answer { addresses, ttl: None }));
}

#[test]
fn network_bound_is_its_own_or_the_default() {
    assert_eq!(NetworkResolver::new().timeout, None);
    assert_eq!(NetworkResolver::new().timeout_millis(5000), 5000);
    assert_eq!(NetworkResolver::with_timeout(250).timeout, Some(250));
    assert_eq!(NetworkResolver::with_timeout(250).timeout_millis(5000), 250);
    assert_eq!(NetworkResolver::with_timeout(0).timeout_millis(5000), 0);
}

#[test]
fn network_passes_a_good_report_on() {
    let report = Ok(Answer { addresses: v4(8, 8, 8, 8), ttl: Some(Ttl::from_millis(300)) });
    assert_eq!(
        NetworkResolver::interpret(report),
        Ok(Answer { addresses: v4(8, 8, 8, 8), ttl: Some(Ttl::from_millis(300)) })
    );
}

#[test]
fn network_report_without_addresses_is_not_found() {
    let report = Ok(Answer { addresses: AddressSet::new(), ttl: Some(Ttl::from_millis(300)) });
    assert_eq!(NetworkResolver::interpret(report), Err(ResolutionError::NotFound));
}

#[test]
fn network_maps_each_failure() {
    assert_eq!(NetworkResolver::interpret(Err(CapabilityError::TimedOut)), Err(ResolutionError::Timeout));
    assert_eq!(NetworkResolver::interpret(Err(CapabilityError::NoRecords)), Err(ResolutionError::NotFound));
    assert_eq!(NetworkResolver::interpret(Err(CapabilityError::Protocol)), Err(ResolutionError::Malformed));
    assert_eq!(
        NetworkResolver::interpret(Err(CapabilityError::Io(String::from("reset")))),
        Err(ResolutionError::Network(String::from("reset")))
    );
    assert_eq!(
        NetworkResolver::interpret(Err(CapabilityError::Other(String::from("busy")))),
        Err(ResolutionError::Network(String::from("busy")))
    );
}

#[test]
fn a_leaf_flattens_to_itself() {
    let mut leaves = Vec::new();
    Strategy::Network(NetworkResolver::with_timeout(7)).flatten_into(&mut leaves);
    assert_eq!(leaves.len(), 1);
    assert!(matches!(leaves[0], Strategy::Network(NetworkResolver { timeout: Some(7) })));
}

#[test]
fn nested_chains_flatten_in_order() {
    let inner = Strategy::Failover(FailoverResolver {
        members: vec![
            Strategy::Network(NetworkResolver::with_timeout(2)),
            Strategy::Failover(FailoverResolver { members: vec![] }),
            Strategy::Network(NetworkResolver::with_timeout(3)),
        ],
    });
    let outer = Strategy::Failover(FailoverResolver {
        members: vec![
            Strategy::Network(NetworkResolver::with_timeout(1)),
            inner,
            Strategy::Fixture(FixtureResolver::new()),
            Strategy::Network(NetworkResolver::with_timeout(4)),
        ],
    });
    let mut leaves = vec![Strategy::Network(NetworkResolver::with_timeout(0))];
    outer.flatten_into(&mut leaves);
    assert_eq!(leaves.len(), 6);
    assert!(matches!(leaves[0], Strategy::Network(NetworkResolver { timeout: Some(0) })));
    assert!(matches!(leaves[1], Strategy::Network(NetworkResolver { timeout: Some(1) })));
    assert!(matches!(leaves[2], Strategy::Network(NetworkResolver { timeout: Some(2) })));
    assert!(matches!(leaves[3], Strategy::Network(NetworkResolver { timeout: Some(3) })));
    assert!(matches!(leaves[4], Strategy::Fixture(_)));
    assert!(matches!(leaves[5], Strategy::Network(NetworkResolver { timeout: Some(4) })));
}

#[test]
fn failover_returns_the_second_when_the_first_fails() {
    let leaves = vec![
        Strategy::Fixture(table("other.test", v4(1, 1, 1, 1))),
        Strategy::Fixture(table("wanted.test", v4(2, 2, 2, 2))),
    ];
    let result = finished(advance(&leaves, &Hostname::new("wanted.test"), 0, None));
    assert_eq!(result, Ok(Answer { addresses: v4(2, 2, 2, 2), ttl: None }));
}

#[test]
fn failover_stops_at_the_first_success() {
    let leaves = vec![
        Strategy::Fixture(table("wanted.test", v4(1, 1, 1, 1))),
        Strategy::Fixture(table("wanted.test", v4(2, 2, 2, 2))),
    ];
    let result = finished(advance(&leaves, &Hostname::new("wanted.test"), 0, None));
    assert_eq!(result, Ok(Answer { addresses: v4(1, 1, 1, 1), ttl: None }));
}

#[test]
fn failover_fails_with_the_last_error_when_all_fail() {
    let leaves = vec![
        Strategy::Fixture(table("a.test", v4(1, 1, 1, 1))),
        Strategy::Fixture(table("b.test", v4(2, 2, 2, 2))),
    ];
    let result = finished(advance(&leaves, &Hostname::new("wanted.test"), 0, Some(ResolutionError::Timeout)));
    assert_eq!(result, Err(ResolutionError::NotFound));
}

#[test]
fn run_behind_the_last_leaf_keeps_the_error_it_came_with() {
    let leaves = vec![Strategy::Fixture(table("a.test", v4(1, 1, 1, 1)))];
    let result = finished(advance(&leaves, &Hostname::new("a.test"), 1, Some(ResolutionError::Malformed)));
    assert_eq!(result, Err(ResolutionError::Malformed));
    let far = finished(advance(
        &leaves,
        &Hostname::new("a.test"),
        usize::MAX,
        Some(ResolutionError::Network(String::from("x"))),
    ));
    assert_eq!(far, Err(ResolutionError::Network(String::from("x"))));
}

#[test]
fn empty_chain_is_not_found() {
    let leaves: Vec<Strategy> = Vec::new();
    let result = finished(advance(&leaves, &Hostname::new("a.test"), 0, None));
    assert_eq!(result, Err(ResolutionError::NotFound));
}

#[test]
fn run_stops_at_the_first_network_leaf() {
    let leaves = vec![
        Strategy::Fixture(table("a.test", v4(1, 1, 1, 1))),
        Strategy::Network(NetworkResolver::new()),
        Strategy::Fixture(table("wanted.test", v4(2, 2, 2, 2))),
    ];
    assert!(matches!(advance(&leaves, &Hostname::new("wanted.test"), 0, None), Progress::Suspended(1)));
    let after = finished(advance(&leaves, &Hostname::new("wanted.test"), 2, Some(ResolutionError::Timeout)));
    assert_eq!(after, Ok(Answer { addresses: v4(2, 2, 2, 2), ttl: None }));
}

#[test]
fn fixture_before_the_network_answers_without_it() {
    let leaves = vec![
        Strategy::Fixture(table("wanted.test", v4(1, 1, 1, 1))),
        Strategy::Network(NetworkResolver::new()),
    ];
    let result = finished(advance(&leaves, &Hostname::new("wanted.test"), 0, None));
    assert_eq!(result, Ok(Answer { addresses: v4(1, 1, 1, 1), ttl: None }));
}

use dns_resolution::failure::{CapabilityError, ResolutionError};
use trust_dns_proto::error::{ProtoError, ProtoErrorKind};
use trust_dns_proto::op::Query;
use trust_dns_resolver::error::{ResolveError, ResolveErrorKind};

#[test]
fn timed_out_call_is_a_timeout() {
    assert_eq!(ResolutionError::from_capability(CapabilityError::TimedOut), ResolutionError::Timeout);
}

#[test]
fn missing_records_are_not_found() {
    assert_eq!(ResolutionError::from_capability(CapabilityError::NoRecords), ResolutionError::NotFound);
}

#[test]
fn protocol_failure_is_malformed() {
    assert_eq!(ResolutionError::from_capability(CapabilityError::Protocol), ResolutionError::Malformed);
}

#[test]
fn io_failure_is_a_network_error_with_its_cause() {
    assert_eq!(
        ResolutionError::from_capability(CapabilityError::Io(String::from("connection refused"))),
        ResolutionError::Network(String::from("connection refused"))
    );
}

#[test]
fn other_failure_is_a_network_error_with_its_cause() {
    assert_eq!(
        ResolutionError::from_capability(CapabilityError::Other(String::from("lock poisoned"))),
        ResolutionError::Network(String::from("lock poisoned"))
    );
}

#[test]
fn error_clones_are_equal() {
    let error = ResolutionError::Network(String::from("down"));
    assert_eq!(error.clone(), error);
    let failure = CapabilityError::Io(String::from("down"));
    assert_eq!(failure.clone(), failure);
    assert_eq!(ResolutionError::Timeout.clone(), ResolutionError::Timeout);
    assert_eq!(CapabilityError::NoRecords.clone(), CapabilityError::NoRecords);
}

#[test]
fn stack_reports_no_records() {
    let error = ResolveError::from(ResolveErrorKind::NoRecordsFound(Query::new()));
    assert_eq!(CapabilityError::from_resolve_error(&error), CapabilityError::NoRecords);
}

#[test]
fn stack_reports_a_timeout() {
    let error = ResolveError::from(ProtoError::from(ProtoErrorKind::Timeout));
    assert_eq!(CapabilityError::from_resolve_error(&error), CapabilityError::TimedOut);
}

#[test]
fn stack_reports_a_protocol_failure() {
    let error = ResolveError::from(ProtoError::from(ProtoErrorKind::LabelBytesTooLong(70)));
    assert_eq!(CapabilityError::from_resolve_error(&error), CapabilityError::Protocol);
}

#[test]
fn stack_reports_an_io_failure() {
    let error = ResolveError::from(std::io::Error::new(std::io::ErrorKind::Other, "down"));
    assert_eq!(CapabilityError::from_resolve_error(&error), CapabilityError::Io(String::from("io error")));
}

#[test]
fn stack_reports_an_io_failure_of_the_protocol_layer() {
    let error = ResolveError::from(ProtoError::from(std::io::Error::new(std::io::ErrorKind::Other, "down")));
    assert_eq!(CapabilityError::from_resolve_error(&error), CapabilityError::Io(String::from("io error")));
}

#[test]
fn stack_reports_a_message() {
    let fixed = ResolveError::from(ResolveErrorKind::Message("no connections available"));
    assert_eq!(
        CapabilityError::from_resolve_error(&fixed),
        CapabilityError::Other(String::from("no connections available"))
    );
    let built = ResolveError::from(String::from("lock poisoned"));
    assert_eq!(CapabilityError::from_resolve_error(&built), CapabilityError::Other(String::from("lock poisoned")));
}

#[test]
fn stack_timeout_reaches_the_caller_as_timeout() {
    let error = ResolveError::from(ProtoError::from(ProtoErrorKind::Timeout));
    let failure = CapabilityError::from_resolve_error(&error);
    assert_eq!(ResolutionError::from_capability(failure), ResolutionError::Timeout);
}

//! Why a lookup failed, as callers see it and as the DNS stack reports it.

use trust_dns_proto::error::ProtoErrorKind;
use trust_dns_resolver::error::{ResolveError, ResolveErrorKind};
use vstd::prelude::*;

verus! {

/// The failure of a lookup as callers see it.
#[derive(Debug, PartialEq, Eq)]
pub enum ResolutionError {
    /// No response came within the bound.
    Timeout,
    /// An authoritative negative answer, or a host no fixture knows.
    NotFound,
    /// A response came and could not be interpreted.
    Malformed,
    /// The transport failed; the cause is carried through unread.
    Network(String),
}

/// The failure of one call into the DNS stack, in plain values.
#[derive(Debug, PartialEq, Eq)]
pub enum CapabilityError {
    /// The stack gave up waiting for a response.
    TimedOut,
    /// The stack found no record for the name.
    NoRecords,
    /// The stack could not encode the question or decode the answer.
    Protocol,
    /// The stack could not read from or write to the network.
    Io(String),
    /// Any other failure, with the stack's own message.
    Other(String),
}

/// The error a caller sees for a given failure of the DNS stack.
pub open spec fn resolution_error_of(failure: CapabilityError) -> ResolutionError {
    match failure {
        CapabilityError::TimedOut => ResolutionError::Timeout,
        CapabilityError::NoRecords => ResolutionError::NotFound,
        CapabilityError::Protocol => ResolutionError::Malformed,
        CapabilityError::Io(cause) => ResolutionError::Network(cause),
        CapabilityError::Other(cause) => ResolutionError::Network(cause),
    }
}

/// Trusted: declares `ResolveError` of trust-dns-resolver, the error of a
/// lookup, as a type whose values are carried through unread.
#[verifier::external_type_specification]
#[verifier::external_body]
pub struct ExResolveError(ResolveError);

/// Trusted: reads `ResolveError::kind` of trust-dns-resolver and tells its
/// variants apart. `NoRecordsFound` becomes `NoRecords`; a `Proto` error is
/// `TimedOut` or `Io` where the protocol layer names a timeout or an I/O error
/// and `Protocol` otherwise; `Io` stays `Io`; `Message` and `Msg` become
/// `Other`. The strings are what the error prints of itself. Nothing is
/// claimed of the result: it depends on what the opaque error holds.
#[verifier::external_body]
fn capability_error(error: &ResolveError) -> CapabilityError {
    match error.kind() {
        ResolveErrorKind::NoRecordsFound(_) => CapabilityError::NoRecords,
        ResolveErrorKind::Proto(ProtoErrorKind::Timeout) => CapabilityError::TimedOut,
        ResolveErrorKind::Proto(ProtoErrorKind::Io) => CapabilityError::Io(format!("{}", error)),
        ResolveErrorKind::Proto(_) => CapabilityError::Protocol,
        ResolveErrorKind::Io => CapabilityError::Io(format!("{}", error)),
        ResolveErrorKind::Message(_) => CapabilityError::Other(format!("{}", error)),
        ResolveErrorKind::Msg(_) => CapabilityError::Other(format!("{}", error)),
    }
}

impl Clone for ResolutionError {
    fn clone(&self) -> (e: ResolutionError)
        ensures
            e == *self,
    {
        match self {
            ResolutionError::Timeout => ResolutionError::Timeout,
            ResolutionError::NotFound => ResolutionError::NotFound,
            ResolutionError::Malformed => ResolutionError::Malformed,
            ResolutionError::Network(cause) => ResolutionError::Network(cause.clone()),
        }
    }
}

impl Clone for CapabilityError {
    fn clone(&self) -> (e: CapabilityError)
        ensures
            e == *self,
    {
        match self {
            CapabilityError::TimedOut => CapabilityError::TimedOut,
            CapabilityError::NoRecords => CapabilityError::NoRecords,
            CapabilityError::Protocol => CapabilityError::Protocol,
            CapabilityError::Io(cause) => CapabilityError::Io(cause.clone()),
            CapabilityError::Other(cause) => CapabilityError::Other(cause.clone()),
        }
    }
}

impl CapabilityError {
    /// The plain form of an error of the DNS stack. Which variant comes out is
    /// decided by the stack's error alone, which is opaque here.
    pub fn from_resolve_error(error: &ResolveError) -> CapabilityError {
        capability_error(error)
    }
}

impl ResolutionError {
    /// Maps a failure of the DNS stack to the error a caller sees.
    pub fn from_capability(failure: CapabilityError) -> (e: ResolutionError)
        ensures
            e == resolution_error_of(failure),
    {
        match failure {
            CapabilityError::TimedOut => ResolutionError::Timeout,
            CapabilityError::NoRecords => ResolutionError::NotFound,
            CapabilityError::Protocol => ResolutionError::Malformed,
            CapabilityError::Io(cause) => ResolutionError::Network(cause),
            CapabilityError::Other(cause) => ResolutionError::Network(cause),
        }
    }
}

} // verus!

//! A DNS resolution service in three layers: a cache of recent answers that
//! honours their lifetimes, a set of interchangeable resolver strategies, and a
//! coordinator that shares one lookup among all callers asking for the same
//! host. The library decides; the host process performs the network calls and
//! reports what came back.

pub mod address;
pub mod assoc;
pub mod cache;
pub mod coordinator;
pub mod failure;
pub mod hostname;
pub mod laws;
pub mod model;
pub mod strategy;

//! Addresses, answers and lifetimes: the values a lookup produces.

use vstd::prelude::*;

verus! {

/// One IPv4 address by its four octets, or one IPv6 address by its eight
/// 16-bit segments, most significant first.
#[derive(Clone, Copy, Debug, PartialEq, Eq, Hash, Structural)]
pub enum IpAddress {
    V4(u8, u8, u8, u8),
    V6(u16, u16, u16, u16, u16, u16, u16, u16),
}

/// How long an answer may be served from the cache, in milliseconds.
/// A zero lifetime means the answer is not cached at all.
#[derive(Clone, Copy, Debug, PartialEq, Eq, Hash, Structural)]
pub struct Ttl {
    pub millis: u64,
}

impl Ttl {
    pub fn from_millis(millis: u64) -> (t: Ttl)
        ensures
            t.millis == millis,
    {
        Ttl { millis }
    }

    pub fn as_millis(&self) -> (m: u64)
        ensures
            m == self.millis,
    {
        self.millis
    }

    pub fn is_zero(&self) -> (z: bool)
        ensures
            z == (self.millis == 0),
    {
        self.millis == 0
    }
}

/// The addresses of one host, in the order in which the resolver gave them.
#[derive(Debug, PartialEq, Eq)]
pub struct AddressSet {
    addresses: Vec<IpAddress>,
}

impl View for AddressSet {
    type V = Seq<IpAddress>;

    closed spec fn view(&self) -> Seq<IpAddress> {
        self.addresses@
    }
}

impl AddressSet {
    pub fn new() -> (s: AddressSet)
        ensures
            s@ == Seq::<IpAddress>::empty(),
    {
        AddressSet { addresses: Vec::new() }
    }

    pub fn from_vec(addresses: Vec<IpAddress>) -> (s: AddressSet)
        ensures
            s@ == addresses@,
    {
        AddressSet { addresses }
    }

    pub fn len(&self) -> (n: usize)
        ensures
            n == self@.len(),
    {
        self.addresses.len()
    }

    pub fn is_empty(&self) -> (e: bool)
        ensures
            e == (self@.len() == 0),
    {
        self.addresses.len() == 0
    }

    /// The address at position `i`, if there is one.
    pub fn get(&self, i: usize) -> (a: Option<IpAddress>)
        ensures
            a == (if i < self@.len() { Some(self@[i as int]) } else { None }),
    {
        if i < self.addresses.len() {
            Some(self.addresses[i])
        } else {
            None
        }
    }

    pub fn push(&mut self, address: IpAddress)
        ensures
            final(self)@ == old(self)@.push(address),
    {
        self.addresses.push(address);
    }

    pub fn to_vec(&self) -> (v: Vec<IpAddress>)
        ensures
            v@ == self@,
    {
        let mut v: Vec<IpAddress> = Vec::new();
        let mut i: usize = 0;
        while i < self.addresses.len()
            invariant
                i <= self.addresses.len(),
                v@ == self.addresses@.take(i as int),
            decreases self.addresses.len() - i,
        {
            v.push(self.addresses[i]);
            i += 1;
        }
        v
    }
}

impl Clone for AddressSet {
    fn clone(&self) -> (s: AddressSet)
        ensures
            s@ == self@,
    {
        AddressSet { addresses: self.to_vec() }
    }
}

/// What a strategy hands back on success: the addresses, and the lifetime the
/// resolver attached to them if it attached one.
#[derive(Debug, PartialEq, Eq)]
pub struct Answer {
    pub addresses: AddressSet,
    pub ttl: Option<Ttl>,
}

/// An `Answer` as a mathematical value.
pub struct AnswerView {
    pub addresses: Seq<IpAddress>,
    pub ttl: Option<Ttl>,
}

impl View for Answer {
    type V = AnswerView;

    open spec fn view(&self) -> AnswerView {
        AnswerView { addresses: self.addresses@, ttl: self.ttl }
    }
}

impl Clone for Answer {
    fn clone(&self) -> (a: Answer)
        ensures
            a@ == self@,
    {
        Answer { addresses: self.addresses.clone(), ttl: self.ttl }
    }
}

} // verus!

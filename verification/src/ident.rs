//! The opaque identifiers the room protocol moves around: peer identities,
//! topic identifiers, and transport-level node addresses. The core never
//! looks inside any of them; it only compares, copies, and round-trips them.
use vstd::prelude::*;

verus! {

use crate::rng::random_bytes;

/// Compares two byte vectors element by element.
pub fn bytes_eq(a: &Vec<u8>, b: &Vec<u8>) -> (r: bool)
    ensures
        r == (a@ == b@),
{
    if a.len() != b.len() {
        proof {
            assert(a@.len() != b@.len());
        }
        return false;
    }
    let mut i: usize = 0;
    while i < a.len()
        invariant
            i <= a@.len(),
            a@.len() == b@.len(),
            forall|j: int| 0 <= j < i ==> a@[j] == b@[j],
        decreases a@.len() - i,
    {
        if a[i] != b[i] {
            return false;
        }
        i = i + 1;
    }
    proof {
        assert(a@ =~= b@);
    }
    true
}

/// An opaque, comparable identity naming one participant. Always exactly
/// [`crate::ID_LEN`] bytes, handed in by the transport layer.
#[derive(Debug)]
pub struct PeerId {
    bytes: Vec<u8>,
}

impl View for PeerId {
    type V = Seq<u8>;

    closed spec fn view(&self) -> Seq<u8> {
        self.bytes@
    }
}

impl PeerId {
    /// A peer identity always holds exactly [`crate::ID_LEN`] bytes.
    #[verifier::type_invariant]
    pub open spec fn wf(&self) -> bool {
        self@.len() == crate::ID_LEN
    }

    /// Wraps raw identity bytes; fails unless exactly [`crate::ID_LEN`]
    /// bytes were given.
    pub fn from_bytes(bytes: Vec<u8>) -> (r: Option<PeerId>)
        ensures
            r is Some <==> bytes@.len() == crate::ID_LEN,
            r is Some ==> r->0@ == bytes@ && r->0.wf(),
    {
        if bytes.len() == crate::ID_LEN {
            Some(PeerId { bytes })
        } else {
            None
        }
    }

    /// The raw identity bytes.
    pub fn as_bytes(&self) -> (r: &Vec<u8>)
        ensures
            r@ == self@,
    {
        &self.bytes
    }

    /// A copy of this identity.
    pub fn duplicate(&self) -> (r: PeerId)
        ensures
            r@ == self@,
    {
        proof {
            use_type_invariant(self);
        }
        PeerId { bytes: self.bytes.clone() }
    }
}

impl PartialEq for PeerId {
    fn eq(&self, other: &PeerId) -> (r: bool) {
        bytes_eq(&self.bytes, &other.bytes)
    }
}

impl vstd::std_specs::cmp::PartialEqSpecImpl for PeerId {
    open spec fn obeys_eq_spec() -> bool {
        true
    }

    open spec fn eq_spec(&self, other: &PeerId) -> bool {
        self@ == other@
    }
}

impl Eq for PeerId {}

/// A fixed-width opaque identifier naming a room. Drawn at random when a
/// room is created; copied verbatim when a room is joined.
#[derive(Debug)]
pub struct TopicId {
    bytes: Vec<u8>,
}

impl View for TopicId {
    type V = Seq<u8>;

    closed spec fn view(&self) -> Seq<u8> {
        self.bytes@
    }
}

impl TopicId {
    /// A topic identifier always holds exactly [`crate::ID_LEN`] bytes.
    #[verifier::type_invariant]
    pub open spec fn wf(&self) -> bool {
        self@.len() == crate::ID_LEN
    }

    /// Wraps raw topic bytes; fails unless exactly [`crate::ID_LEN`] bytes
    /// were given.
    pub fn from_bytes(bytes: Vec<u8>) -> (r: Option<TopicId>)
        ensures
            r is Some <==> bytes@.len() == crate::ID_LEN,
            r is Some ==> r->0@ == bytes@ && r->0.wf(),
    {
        if bytes.len() == crate::ID_LEN {
            Some(TopicId { bytes })
        } else {
            None
        }
    }

    /// A fresh random topic identifier for a newly created room.
    pub fn random() -> (r: TopicId)
        ensures
            r.wf(),
    {
        TopicId { bytes: random_bytes(crate::ID_LEN) }
    }

    /// The raw topic bytes.
    pub fn as_bytes(&self) -> (r: &Vec<u8>)
        ensures
            r@ == self@,
    {
        &self.bytes
    }

    /// A copy of this topic identifier.
    pub fn duplicate(&self) -> (r: TopicId)
        ensures
            r@ == self@,
    {
        proof {
            use_type_invariant(self);
        }
        TopicId { bytes: self.bytes.clone() }
    }
}

impl PartialEq for TopicId {
    fn eq(&self, other: &TopicId) -> (r: bool) {
        bytes_eq(&self.bytes, &other.bytes)
    }
}

impl vstd::std_specs::cmp::PartialEqSpecImpl for TopicId {
    open spec fn obeys_eq_spec() -> bool {
        true
    }

    open spec fn eq_spec(&self, other: &TopicId) -> bool {
        self@ == other@
    }
}

impl Eq for TopicId {}

/// An opaque transport-level reachability descriptor: the serialized form of
/// one node's address, supplied and consumed by the transport layer. The
/// core only round-trips it.
#[derive(Debug)]
pub struct NodeAddress {
    bytes: Vec<u8>,
}

impl View for NodeAddress {
    type V = Seq<u8>;

    closed spec fn view(&self) -> Seq<u8> {
        self.bytes@
    }
}

impl NodeAddress {
    /// Wraps the serialized form of a node address.
    pub fn from_bytes(bytes: Vec<u8>) -> (r: NodeAddress)
        ensures
            r@ == bytes@,
    {
        NodeAddress { bytes }
    }

    /// The serialized address bytes.
    pub fn as_bytes(&self) -> (r: &Vec<u8>)
        ensures
            r@ == self@,
    {
        &self.bytes
    }

    /// A copy of this address.
    pub fn duplicate(&self) -> (r: NodeAddress)
        ensures
            r@ == self@,
    {
        NodeAddress { bytes: self.bytes.clone() }
    }
}

impl PartialEq for NodeAddress {
    fn eq(&self, other: &NodeAddress) -> (r: bool) {
        bytes_eq(&self.bytes, &other.bytes)
    }
}

impl vstd::std_specs::cmp::PartialEqSpecImpl for NodeAddress {
    open spec fn obeys_eq_spec() -> bool {
        true
    }

    open spec fn eq_spec(&self, other: &NodeAddress) -> bool {
        self@ == other@
    }
}

impl Eq for NodeAddress {}

} // verus!

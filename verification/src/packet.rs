//! Connection identifiers as they appear in packets.

use vstd::prelude::*;

verus! {

/// The type of a QUIC packet.
#[derive(Clone, Copy, Debug, PartialEq, Eq, Structural)]
pub enum Type {
    /// Initial packet.
    Initial,
    /// Retry packet.
    Retry,
    /// Handshake packet.
    Handshake,
    /// 0-RTT packet.
    ZeroRTT,
    /// Version negotiation packet.
    VersionNegotiation,
    /// 1-RTT short header packet.
    Short,
}

/// A QUIC connection ID.
#[derive(Debug)]
pub struct ConnectionId {
    bytes: Vec<u8>,
}

impl View for ConnectionId {
    type V = Seq<u8>;

    closed spec fn view(&self) -> Seq<u8> {
        self.bytes@
    }
}

/// Returns a vector holding the bytes of `s`.
pub fn copied(s: &[u8]) -> (r: Vec<u8>)
    ensures
        r@ == s@,
{
    let mut v: Vec<u8> = Vec::new();
    v.extend_from_slice(s);
    assert(v@ =~= s@);
    v
}

/// Whether two slices hold the same bytes.
pub fn same_bytes(a: &[u8], b: &[u8]) -> (r: bool)
    ensures
        r == (a@ == b@),
{
    if a.len() != b.len() {
        return false;
    }
    let mut i: usize = 0;
    while i < a.len()
        invariant
            i <= a@.len(),
            a@.len() == b@.len(),
            forall|j: int| 0 <= j < i ==> a@[j] == b@[j],
        decreases a@.len() - i,
    {
        if a[i] != b[i] {
            return false;
        }
        i += 1;
    }
    assert(a@ =~= b@);
    true
}

impl ConnectionId {
    /// Creates a connection ID out of the bytes of `cid`.
    pub fn from_vec(cid: Vec<u8>) -> (r: Self)
        ensures
            r@ == cid@,
    {
        ConnectionId { bytes: cid }
    }

    /// Creates a connection ID with a copy of the bytes of `cid`.
    pub fn from_ref(cid: &[u8]) -> (r: Self)
        ensures
            r@ == cid@,
    {
        ConnectionId { bytes: copied(cid) }
    }

    /// Whether the connection ID has no bytes.
    pub fn is_empty(&self) -> (r: bool)
        ensures
            r == (self@.len() == 0),
    {
        self.bytes.len() == 0
    }

    /// The bytes of the connection ID.
    pub fn as_slice(&self) -> (r: &[u8])
        ensures
            r@ == self@,
    {
        self.bytes.as_slice()
    }

    /// A copy of the bytes of the connection ID.
    pub fn to_vec(&self) -> (r: Vec<u8>)
        ensures
            r@ == self@,
    {
        copied(self.bytes.as_slice())
    }
}

impl Clone for ConnectionId {
    fn clone(&self) -> (r: Self)
        ensures
            r@ == self@,
    {
        ConnectionId { bytes: copied(self.bytes.as_slice()) }
    }
}

impl Default for ConnectionId {
    fn default() -> (r: Self)
        ensures
            r@ == Seq::<u8>::empty(),
    {
        ConnectionId { bytes: Vec::new() }
    }
}

impl PartialEq for ConnectionId {
    fn eq(&self, other: &Self) -> (r: bool) {
        same_bytes(self.bytes.as_slice(), other.bytes.as_slice())
    }
}

impl vstd::std_specs::cmp::PartialEqSpecImpl for ConnectionId {
    open spec fn obeys_eq_spec() -> bool {
        true
    }

    open spec fn eq_spec(&self, other: &Self) -> bool {
        self@ == other@
    }
}

impl Eq for ConnectionId {

}

} // verus!

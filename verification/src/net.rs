//! Network addresses.

use crate::bytes::be_value;
use crate::packet::same_bytes;
use vstd::prelude::*;

verus! {

/// An IP address, in network byte order.
#[derive(Debug, Clone, Copy, PartialEq, Eq)]
pub enum IpAddr {
    /// An IPv4 address.
    V4([u8; 4]),
    /// An IPv6 address.
    V6([u8; 16]),
}

/// What an IP address is: its version and its bytes.
pub struct IpView {
    /// 4 or 6.
    pub version: u8,
    /// The bytes, the most significant one first.
    pub bytes: Seq<u8>,
}

impl View for IpAddr {
    type V = IpView;

    open spec fn view(&self) -> IpView {
        match self {
            IpAddr::V4(a) => IpView { version: 4, bytes: a@ },
            IpAddr::V6(a) => IpView { version: 6, bytes: a@ },
        }
    }
}

/// The number of bytes of an address of the given version.
pub open spec fn addr_len(version: u8) -> nat {
    if version == 4 {
        4
    } else {
        16
    }
}

impl IpView {
    /// An address has the version and the number of bytes of one of the two
    /// kinds.
    pub open spec fn valid(self) -> bool {
        (self.version == 4 || self.version == 6) && self.bytes.len() == addr_len(self.version)
    }

    /// The address as a number.
    pub open spec fn value(self) -> nat {
        be_value(self.bytes)
    }

    /// The number of bits.
    pub open spec fn bits(self) -> nat {
        8 * addr_len(self.version)
    }
}

/// A socket address.
#[derive(Debug, Clone, Copy)]
pub struct SocketAddr {
    /// The IP address.
    pub ip: IpAddr,
    /// The port.
    pub port: u16,
    /// The flow information of an IPv6 address.
    pub flowinfo: u32,
    /// The scope ID of an IPv6 address.
    pub scope_id: u32,
}

/// What a socket address is.
pub struct SocketAddrView {
    /// The IP address.
    pub ip: IpView,
    /// The port.
    pub port: u16,
    /// The flow information.
    pub flowinfo: u32,
    /// The scope ID.
    pub scope_id: u32,
}

impl View for SocketAddr {
    type V = SocketAddrView;

    open spec fn view(&self) -> SocketAddrView {
        SocketAddrView {
            ip: self.ip@,
            port: self.port,
            flowinfo: self.flowinfo,
            scope_id: self.scope_id,
        }
    }
}

impl SocketAddr {
    /// The socket address of an IPv4 address and a port.
    pub fn v4(ip: [u8; 4], port: u16) -> (r: Self)
        ensures
            r@ == (SocketAddrView {
                ip: IpView { version: 4, bytes: ip@ },
                port,
                flowinfo: 0,
                scope_id: 0,
            }),
    {
        SocketAddr { ip: IpAddr::V4(ip), port, flowinfo: 0, scope_id: 0 }
    }
}

impl PartialEq for SocketAddr {
    fn eq(&self, other: &Self) -> (r: bool) {
        let same_ip: bool = match (&self.ip, &other.ip) {
            (IpAddr::V4(a), IpAddr::V4(b)) => same_bytes(a.as_slice(), b.as_slice()),
            (IpAddr::V6(a), IpAddr::V6(b)) => same_bytes(a.as_slice(), b.as_slice()),
            _ => false,
        };
        same_ip && self.port == other.port && self.flowinfo == other.flowinfo && self.scope_id
            == other.scope_id
    }
}

impl vstd::std_specs::cmp::PartialEqSpecImpl for SocketAddr {
    open spec fn obeys_eq_spec() -> bool {
        true
    }

    open spec fn eq_spec(&self, other: &Self) -> bool {
        self@ == other@
    }
}

impl Eq for SocketAddr {

}

} // verus!

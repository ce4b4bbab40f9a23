//! Registry of UDP sockets for multipath send-side routing.
//!
//! Maps local addresses to their send-capable socket handles, enabling outbound
//! packets to be routed to the correct socket based on the path's local address.

use crate::net::{SocketAddr, SocketAddrView};
use std::sync::Arc;
use vstd::prelude::*;

verus! {

/// Manages multiple sockets for multipath connections.
///
/// Each socket is registered by its local address. The registry provides lookup
/// for send-side routing and a default fallback socket.
pub struct SocketRegistry<Tx: ?Sized> {
    default_socket: Arc<Tx>,
    /// The sockets, at most one for each address.
    sockets: Vec<(SocketAddr, Arc<Tx>)>,
}

/// Whether an address has a socket.
spec fn registered<Tx: ?Sized>(es: Seq<(SocketAddr, Arc<Tx>)>, a: SocketAddrView) -> bool {
    exists|i: int| 0 <= i < es.len() && (#[trigger] es[i]).0@ == a
}

/// Where the socket of an address stands.
spec fn place<Tx: ?Sized>(es: Seq<(SocketAddr, Arc<Tx>)>, a: SocketAddrView) -> int {
    choose|i: int| 0 <= i < es.len() && (#[trigger] es[i]).0@ == a
}

/// No address has two sockets.
spec fn unique_addrs<Tx: ?Sized>(es: Seq<(SocketAddr, Arc<Tx>)>) -> bool {
    forall|i: int, j: int|
        0 <= i < es.len() && 0 <= j < es.len() && (#[trigger] es[i]).0@ == (
        #[trigger] es[j]).0@ ==> i == j
}

/// The sockets by their addresses.
spec fn socket_map<Tx: ?Sized>(es: Seq<(SocketAddr, Arc<Tx>)>) -> Map<SocketAddrView, Arc<Tx>> {
    Map::new(|a: SocketAddrView| registered(es, a), |a: SocketAddrView| es[place(es, a)].1)
}

impl<Tx: ?Sized> View for SocketRegistry<Tx> {
    type V = Map<SocketAddrView, Arc<Tx>>;

    /// The registered sockets by their addresses.
    closed spec fn view(&self) -> Map<SocketAddrView, Arc<Tx>> {
        socket_map(self.sockets@)
    }
}

impl<Tx: ?Sized> SocketRegistry<Tx> {
    /// The socket for addresses that have none of their own.
    pub closed spec fn fallback(&self) -> Arc<Tx> {
        self.default_socket
    }

    /// Each address is registered once.
    pub closed spec fn wf(&self) -> bool {
        unique_addrs(self.sockets@)
    }

    /// Create a new registry with the initial (default) socket.
    pub fn new(default_socket: Arc<Tx>) -> (r: Self)
        ensures
            r.wf(),
            r.fallback() == default_socket,
            r@ == Map::<SocketAddrView, Arc<Tx>>::empty(),
    {
        let r = SocketRegistry { default_socket, sockets: Vec::new() };
        assert(r@ =~= Map::<SocketAddrView, Arc<Tx>>::empty());
        r
    }

    /// The position of the socket of an address.
    fn position(&self, local_addr: &SocketAddr) -> (r: Option<usize>)
        requires
            self.wf(),
        ensures
            match r {
                Some(i) => i < self.sockets@.len() && registered(self.sockets@, local_addr@)
                    && place(self.sockets@, local_addr@) == i && self.sockets@[i as int].0@
                    == local_addr@,
                None => !registered(self.sockets@, local_addr@),
            },
    {
        let mut i: usize = 0;
        while i < self.sockets.len()
            invariant
                i <= self.sockets@.len(),
                self.wf(),
                forall|j: int| 0 <= j < i ==> (#[trigger] self.sockets@[j]).0@ != local_addr@,
            decreases self.sockets@.len() - i,
        {
            if self.sockets[i].0 == *local_addr {
                assert(self.sockets@[i as int].0@ == local_addr@);
                return Some(i);
            }
            i += 1;
        }
        None
    }

    /// Register a socket for the given local address.
    pub fn insert(&mut self, local_addr: SocketAddr, socket: Arc<Tx>)
        requires
            old(self).wf(),
        ensures
            final(self).wf(),
            final(self).fallback() == old(self).fallback(),
            final(self)@ == old(self)@.insert(local_addr@, socket),
    {
        let ghost before = self.sockets@;
        match self.position(&local_addr) {
            Some(i) => {
                self.sockets[i] = (local_addr, socket);
                proof {
                    let after = self.sockets@;
                    assert(after =~= before.update(i as int, (local_addr, socket)));
                    assert forall|a: SocketAddrView|
                        #![trigger registered(after, a)]
                        registered(after, a) == registered(before, a) && (registered(before, a)
                            ==> place(after, a) == place(before, a)) by {
                        lemma_same_addrs(before, after, a);
                    }
                    assert(self@ =~= socket_map(before).insert(local_addr@, socket));
                }
            },
            None => {
                self.sockets.push((local_addr, socket));
                proof {
                    let after = self.sockets@;
                    assert(after =~= before.push((local_addr, socket)));
                    assert forall|a: SocketAddrView|
                        #![trigger registered(after, a)]
                        registered(after, a) == (registered(before, a) || a == local_addr@) && (
                        registered(before, a) ==> place(after, a) == place(before, a)) by {
                        if registered(before, a) {
                            let k = place(before, a);
                            assert(after[k] == before[k]);
                            assert(after[k].0@ == a);
                        }
                        if a == local_addr@ {
                            assert(after[before.len() as int].0@ == a);
                        }
                        if registered(after, a) {
                            let k = place(after, a);
                            if k < before.len() {
                                assert(before[k].0@ == a);
                            }
                        }
                    }
                    assert(registered(after, local_addr@));
                    assert(place(after, local_addr@) == before.len());
                    assert(self@ =~= socket_map(before).insert(local_addr@, socket));
                }
            },
        }
    }

    /// Look up the socket for a local address, falling back to the default.
    pub fn get(&self, local_addr: &SocketAddr) -> (r: &Arc<Tx>)
        requires
            self.wf(),
        ensures
            *r == if self@.contains_key(local_addr@) {
                self@[local_addr@]
            } else {
                self.fallback()
            },
    {
        match self.position(local_addr) {
            Some(i) => &self.sockets[i].1,
            None => &self.default_socket,
        }
    }

    /// Remove a socket registration. Returns the socket if it existed.
    pub fn remove(&mut self, local_addr: &SocketAddr) -> (r: Option<Arc<Tx>>)
        requires
            old(self).wf(),
        ensures
            final(self).wf(),
            final(self).fallback() == old(self).fallback(),
            final(self)@ == old(self)@.remove(local_addr@),
            r == if old(self)@.contains_key(local_addr@) {
                Some(old(self)@[local_addr@])
            } else {
                None
            },
    {
        let ghost before = self.sockets@;
        match self.position(local_addr) {
            Some(i) => {
                let (_, socket) = self.sockets.remove(i);
                proof {
                    let after = self.sockets@;
                    assert(after =~= before.remove(i as int));
                    assert forall|a: SocketAddrView|
                        #![trigger registered(after, a)]
                        registered(after, a) == (registered(before, a) && a != local_addr@) && (
                        registered(after, a) ==> after[place(after, a)].1 == before[place(
                            before,
                            a,
                        )].1) by {
                        if registered(after, a) {
                            let k = place(after, a);
                            let m = if k < i {
                                k
                            } else {
                                k + 1
                            };
                            assert(before[m] == after[k]);
                            assert(before[m].0@ == a);
                        }
                        if registered(before, a) && a != local_addr@ {
                            let m = place(before, a);
                            let k = if m < i {
                                m
                            } else {
                                m - 1
                            };
                            assert(after[k] == before[m]);
                        }
                    }
                    assert(self@ =~= socket_map(before).remove(local_addr@));
                }
                Some(socket)
            },
            None => {
                assert(self@ =~= socket_map(before).remove(local_addr@));
                None
            },
        }
    }

    /// Returns all registered local addresses (excluding the default), each of
    /// them once.
    pub fn local_addrs(&self) -> (r: Vec<SocketAddr>)
        requires
            self.wf(),
        ensures
            r@.map_values(|a: SocketAddr| a@).no_duplicates(),
            r@.map_values(|a: SocketAddr| a@).to_set() == self@.dom(),
    {
        let mut r: Vec<SocketAddr> = Vec::new();
        let mut i: usize = 0;
        let ghost es = self.sockets@;
        while i < self.sockets.len()
            invariant
                i <= es.len(),
                es == self.sockets@,
                r@.len() == i,
                forall|j: int| 0 <= j < i ==> #[trigger] r@[j] == es[j].0,
            decreases es.len() - i,
        {
            r.push(self.sockets[i].0);
            i += 1;
        }
        proof {
            let v = r@.map_values(|a: SocketAddr| a@);
            assert forall|j: int| 0 <= j < v.len() implies #[trigger] v[j] == es[j].0@ by {
                assert(r@[j] == es[j].0);
            }
            assert(v.no_duplicates());
            assert forall|a: SocketAddrView| v.contains(a) == registered(es, a) by {
                if v.contains(a) {
                    let j = choose|j: int| 0 <= j < v.len() && v[j] == a;
                    assert(es[j].0@ == a);
                }
                if registered(es, a) {
                    let j = place(es, a);
                    assert(v[j] == a);
                }
            }
            assert(v.to_set() =~= self@.dom());
        }
        r
    }
}

/// Replacing a socket leaves the addresses in their places.
proof fn lemma_same_addrs<Tx: ?Sized>(
    before: Seq<(SocketAddr, Arc<Tx>)>,
    after: Seq<(SocketAddr, Arc<Tx>)>,
    a: SocketAddrView,
)
    requires
        unique_addrs(before),
        before.len() == after.len(),
        forall|i: int| 0 <= i < before.len() ==> (#[trigger] before[i]).0@ == after[i].0@,
    ensures
        unique_addrs(after),
        registered(after, a) == registered(before, a),
        registered(before, a) ==> place(after, a) == place(before, a),
{
    assert forall|i: int, j: int|
        0 <= i < after.len() && 0 <= j < after.len() && (#[trigger] after[i]).0@ == (
        #[trigger] after[j]).0@ implies i == j by {
        assert(before[i].0@ == before[j].0@);
    }
    if registered(before, a) {
        let k = place(before, a);
        assert(before[k].0@ == a);
        assert(after[k].0@ == a);
    }
    if registered(after, a) {
        let k = place(after, a);
        assert(after[k].0@ == a);
        assert(before[k].0@ == a);
    }
}

} // verus!

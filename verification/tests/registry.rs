//! Socket registry.

use quiche_multipath::net::SocketAddr;
use quiche_multipath::registry::SocketRegistry;
use std::sync::Arc;

fn addr(port: u16) -> SocketAddr {
    SocketAddr::v4([127, 0, 0, 1], port)
}

#[test]
fn get_returns_default_when_no_match() {
    let default = Arc::new(5000u16);
    let registry = SocketRegistry::new(default.clone());
    let result = registry.get(&addr(9999));
    assert_eq!(**result, 5000);
}

#[test]
fn get_returns_registered_socket() {
    let default = Arc::new(5000u16);
    let mut registry = SocketRegistry::new(default);
    let a = addr(6000);
    registry.insert(a, Arc::new(6000u16));
    assert_eq!(**registry.get(&a), 6000);
}

#[test]
fn remove_returns_socket_and_falls_back() {
    let default = Arc::new(5000u16);
    let mut registry = SocketRegistry::new(default);
    let a = addr(6000);
    registry.insert(a, Arc::new(6000u16));

    let removed = registry.remove(&a);
    assert!(removed.is_some());
    assert_eq!(*removed.unwrap(), 6000);

    // Falls back to default after removal
    assert_eq!(**registry.get(&a), 5000);
}

#[test]
fn local_addrs_returns_registered_addresses() {
    let default = Arc::new(0u16);
    let mut registry = SocketRegistry::new(default);
    let a1 = addr(6000);
    let a2 = addr(7000);
    registry.insert(a1, Arc::new(6000u16));
    registry.insert(a2, Arc::new(7000u16));

    let addrs: Vec<_> = registry.local_addrs();
    assert_eq!(addrs.len(), 2);
    assert!(addrs.contains(&a1));
    assert!(addrs.contains(&a2));
}

use quote_stream::liveness::{is_keep_alive, keep_alive, on_datagram};
use quote_stream::registry::SubscriptionRegistry;

fn symbols(names: &[&str]) -> Vec<String> {
    names.iter().map(|name| name.to_string()).collect()
}

#[test]
fn the_keep_alive_payload_is_ping() {
    assert_eq!(keep_alive(), b"PING".to_vec());
}

#[test]
fn only_the_exact_payload_is_a_keep_alive() {
    assert!(is_keep_alive(b"PING"));
    for payload in [&b""[..], b"P", b"PIN", b"PING\n", b"PING ", b" PING", b"ping", b"PONG",
        b"PINGPING", b"\xff\xfe\x00\x01", b"QING", b"PJNG", b"PIOG", b"PINH"] {
        assert!(!is_keep_alive(payload), "{:?}", payload);
    }
}

#[test]
fn a_keep_alive_refreshes_the_sender() {
    let mut registry = SubscriptionRegistry::new();
    assert!(registry.register(9001, symbols(&["AAPL"]), 100).is_ok());
    assert!(registry.register(9002, symbols(&["MSFT"]), 100).is_ok());
    assert!(on_datagram(&mut registry, b"PING", 9001, 104));
    assert!(!registry.is_stale(9001, 5, 108));
    assert!(registry.is_stale(9001, 5, 109));
    // The other subscriber is as it was.
    assert!(registry.is_stale(9002, 5, 105));
    let listing = registry.snapshot_iterate();
    assert_eq!(listing.len(), 2);
    assert!(listing.contains(&(9001, symbols(&["AAPL"]))));
    assert!(listing.contains(&(9002, symbols(&["MSFT"]))));
}

#[test]
fn a_keep_alive_of_a_stranger_registers_nobody() {
    let mut registry = SubscriptionRegistry::new();
    assert!(on_datagram(&mut registry, b"PING", 9001, 104));
    assert!(!registry.contains(9001));
    assert!(registry.snapshot_iterate().is_empty());
}

#[test]
fn other_payloads_are_dropped() {
    let mut registry = SubscriptionRegistry::new();
    assert!(registry.register(9001, symbols(&["AAPL"]), 100).is_ok());
    for payload in [&b""[..], b"PING\n", b"hello", b"\xff\xff\xff\xff", b"EXIT"] {
        assert!(!on_datagram(&mut registry, payload, 9001, 104));
    }
    assert!(registry.is_stale(9001, 5, 105));
    assert_eq!(registry.snapshot_iterate(), vec![(9001u16, symbols(&["AAPL"]))]);
}

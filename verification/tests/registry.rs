use quote_stream::error::SessionError;
use quote_stream::registry::SubscriptionRegistry;

fn symbols(names: &[&str]) -> Vec<String> {
    names.iter().map(|name| name.to_string()).collect()
}

fn entry(registry: &SubscriptionRegistry, id: u16) -> Option<Vec<String>> {
    registry
        .snapshot_iterate()
        .into_iter()
        .find(|(port, _)| *port == id)
        .map(|(_, list)| list)
}

#[test]
fn new_registry_is_empty() {
    let registry = SubscriptionRegistry::new();
    assert!(!registry.contains(9001));
    assert!(registry.snapshot_iterate().is_empty());
}

#[test]
fn register_adds_the_entry() {
    let mut registry = SubscriptionRegistry::new();
    assert!(registry.register(9001, symbols(&["AAPL", "MSFT"]), 10).is_ok());
    assert!(registry.contains(9001));
    assert!(!registry.contains(9002));
    assert_eq!(entry(&registry, 9001), Some(symbols(&["AAPL", "MSFT"])));
}

#[test]
fn register_twice_fails_with_port_in_use() {
    let mut registry = SubscriptionRegistry::new();
    assert!(registry.register(9001, symbols(&["AAPL"]), 10).is_ok());
    let second = registry.register(9001, symbols(&["TSLA"]), 12);
    assert!(matches!(second, Err(SessionError::PortInUse)));
}

#[test]
fn register_twice_leaves_the_entry_untouched() {
    let mut registry = SubscriptionRegistry::new();
    assert!(registry.register(9001, symbols(&["AAPL"]), 10).is_ok());
    assert!(registry.register(9001, symbols(&["TSLA"]), 14).is_err());
    // The watch-list is the first one.
    assert_eq!(entry(&registry, 9001), Some(symbols(&["AAPL"])));
    // The timestamp is the first one: stale at 15 with a timeout of 5.
    assert!(!registry.is_stale(9001, 5, 14));
    assert!(registry.is_stale(9001, 5, 15));
    assert_eq!(registry.snapshot_iterate().len(), 1);
}

#[test]
fn register_keeps_duplicates_and_order_of_the_watch_list() {
    let mut registry = SubscriptionRegistry::new();
    let list = symbols(&["MSFT", "AAPL", "MSFT", ""]);
    assert!(registry.register(1, list.clone(), 0).is_ok());
    assert_eq!(entry(&registry, 1), Some(list));
}

#[test]
fn register_takes_an_empty_watch_list_as_it_is() {
    let mut registry = SubscriptionRegistry::new();
    assert!(registry.register(1, Vec::new(), 0).is_ok());
    assert_eq!(entry(&registry, 1), Some(Vec::new()));
}

#[test]
fn identities_at_the_ends_of_the_range() {
    let mut registry = SubscriptionRegistry::new();
    assert!(registry.register(0, symbols(&["A"]), 0).is_ok());
    assert!(registry.register(65535, symbols(&["B"]), 0).is_ok());
    assert!(registry.contains(0));
    assert!(registry.contains(65535));
    assert_eq!(registry.snapshot_iterate().len(), 2);
}

#[test]
fn is_stale_at_the_boundary() {
    let mut registry = SubscriptionRegistry::new();
    assert!(registry.register(9001, symbols(&["AAPL"]), 100).is_ok());
    assert!(!registry.is_stale(9001, 5, 100));
    assert!(!registry.is_stale(9001, 5, 104));
    assert!(registry.is_stale(9001, 5, 105));
    assert!(registry.is_stale(9001, 5, 106));
    assert!(registry.is_stale(9001, 5, u64::MAX));
}

#[test]
fn is_stale_is_false_for_an_absent_identity() {
    let mut registry = SubscriptionRegistry::new();
    assert!(!registry.is_stale(9001, 0, 0));
    assert!(!registry.is_stale(9001, 5, u64::MAX));
    assert!(registry.register(9001, symbols(&["AAPL"]), 0).is_ok());
    assert!(!registry.is_stale(9002, 0, 100));
}

#[test]
fn is_stale_with_a_zero_timeout() {
    let mut registry = SubscriptionRegistry::new();
    assert!(registry.register(9001, symbols(&["AAPL"]), 100).is_ok());
    assert!(registry.is_stale(9001, 0, 100));
    assert!(registry.is_stale(9001, 0, 101));
}

#[test]
fn is_stale_when_the_clock_reads_earlier_than_last_seen() {
    let mut registry = SubscriptionRegistry::new();
    assert!(registry.register(9001, symbols(&["AAPL"]), 100).is_ok());
    // No time has passed: stale only when no time is asked for.
    assert!(!registry.is_stale(9001, 1, 50));
    assert!(registry.is_stale(9001, 0, 50));
}

#[test]
fn is_stale_with_the_largest_timeout() {
    let mut registry = SubscriptionRegistry::new();
    assert!(registry.register(9001, symbols(&["AAPL"]), 0).is_ok());
    assert!(registry.is_stale(9001, u64::MAX, u64::MAX));
    assert!(!registry.is_stale(9001, u64::MAX, u64::MAX - 1));
    registry.touch(9001, 1);
    assert!(!registry.is_stale(9001, u64::MAX, u64::MAX));
}

#[test]
fn touch_refreshes_the_timestamp() {
    let mut registry = SubscriptionRegistry::new();
    assert!(registry.register(9001, symbols(&["AAPL"]), 100).is_ok());
    assert!(registry.is_stale(9001, 5, 105));
    registry.touch(9001, 103);
    assert!(!registry.is_stale(9001, 5, 105));
    assert!(!registry.is_stale(9001, 5, 107));
    assert!(registry.is_stale(9001, 5, 108));
}

#[test]
fn touch_leaves_the_watch_list() {
    let mut registry = SubscriptionRegistry::new();
    let list = symbols(&["AAPL", "MSFT", "AAPL"]);
    assert!(registry.register(9001, list.clone(), 100).is_ok());
    registry.touch(9001, 200);
    assert_eq!(entry(&registry, 9001), Some(list));
    assert_eq!(registry.snapshot_iterate().len(), 1);
}

#[test]
fn touch_of_an_absent_identity_does_nothing() {
    let mut registry = SubscriptionRegistry::new();
    registry.touch(9001, 100);
    assert!(!registry.contains(9001));
    assert!(registry.snapshot_iterate().is_empty());
    assert!(registry.register(9002, symbols(&["AAPL"]), 0).is_ok());
    registry.touch(9001, 100);
    assert!(!registry.contains(9001));
    assert!(registry.is_stale(9002, 5, 5));
}

#[test]
fn touch_of_one_identity_leaves_the_others() {
    let mut registry = SubscriptionRegistry::new();
    assert!(registry.register(1, symbols(&["A"]), 0).is_ok());
    assert!(registry.register(2, symbols(&["B"]), 0).is_ok());
    registry.touch(1, 10);
    assert!(!registry.is_stale(1, 5, 12));
    assert!(registry.is_stale(2, 5, 12));
    assert_eq!(entry(&registry, 2), Some(symbols(&["B"])));
}

#[test]
fn remove_deletes_the_entry() {
    let mut registry = SubscriptionRegistry::new();
    assert!(registry.register(9001, symbols(&["AAPL"]), 0).is_ok());
    assert!(registry.register(9002, symbols(&["MSFT"]), 0).is_ok());
    registry.remove(9001);
    assert!(!registry.contains(9001));
    assert!(registry.contains(9002));
    assert!(!registry.is_stale(9001, 0, 100));
    assert_eq!(registry.snapshot_iterate().len(), 1);
}

#[test]
fn remove_is_idempotent() {
    let mut registry = SubscriptionRegistry::new();
    registry.remove(9001);
    assert!(registry.snapshot_iterate().is_empty());
    assert!(registry.register(9001, symbols(&["AAPL"]), 0).is_ok());
    assert!(registry.register(9002, symbols(&["MSFT"]), 0).is_ok());
    registry.remove(9001);
    registry.remove(9001);
    assert!(!registry.contains(9001));
    assert_eq!(entry(&registry, 9002), Some(symbols(&["MSFT"])));
}

#[test]
fn an_identity_can_be_registered_again_after_removal() {
    let mut registry = SubscriptionRegistry::new();
    assert!(registry.register(9001, symbols(&["AAPL"]), 0).is_ok());
    registry.remove(9001);
    assert!(registry.register(9001, symbols(&["TSLA"]), 50).is_ok());
    assert_eq!(entry(&registry, 9001), Some(symbols(&["TSLA"])));
    assert!(!registry.is_stale(9001, 5, 54));
    assert!(registry.is_stale(9001, 5, 55));
}

#[test]
fn listing_names_every_identity_once() {
    let mut registry = SubscriptionRegistry::new();
    for id in 0..200u16 {
        assert!(registry.register(id * 3, symbols(&["S"]), 0).is_ok());
        assert!(registry.register(id * 3, symbols(&["T"]), 1).is_err());
    }
    for id in 0..100u16 {
        registry.remove(id * 6);
        registry.touch(id * 6 + 3, 9);
    }
    let mut ids: Vec<u16> = registry.snapshot_iterate().into_iter().map(|(id, _)| id).collect();
    ids.sort();
    let expected: Vec<u16> = (0..100u16).map(|id| id * 6 + 3).collect();
    assert_eq!(ids, expected);
}

#[test]
fn listing_is_a_copy() {
    let mut registry = SubscriptionRegistry::new();
    assert!(registry.register(9001, symbols(&["AAPL"]), 0).is_ok());
    let listing = registry.snapshot_iterate();
    registry.remove(9001);
    assert!(registry.register(9001, symbols(&["TSLA"]), 0).is_ok());
    assert_eq!(listing, vec![(9001u16, symbols(&["AAPL"]))]);
}

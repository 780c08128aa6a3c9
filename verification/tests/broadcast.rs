use quote_stream::broadcast::{broadcast, filter_quotes, is_watched, plan_deliveries};
use quote_stream::quote::StockQuote;
use quote_stream::registry::SubscriptionRegistry;

fn symbols(names: &[&str]) -> Vec<String> {
    names.iter().map(|name| name.to_string()).collect()
}

fn quote(ticker: &str, n: u32) -> StockQuote {
    StockQuote {
        ticker: ticker.to_string(),
        price_bits: (12.5f64 + n as f64).to_bits(),
        volume: n,
        timestamp: 1000 + n as u64,
    }
}

fn snapshot(tickers: &[&str]) -> Vec<StockQuote> {
    tickers.iter().enumerate().map(|(n, ticker)| quote(ticker, n as u32)).collect()
}

fn picked(quotes: &[StockQuote]) -> Vec<(String, u32)> {
    quotes.iter().map(|quote| (quote.ticker.clone(), quote.volume)).collect()
}

fn pairs(expected: &[(&str, u32)]) -> Vec<(String, u32)> {
    expected.iter().map(|(ticker, n)| (ticker.to_string(), *n)).collect()
}

#[test]
fn is_watched_looks_for_the_exact_symbol() {
    let list = symbols(&["AAPL", "MSFT", ""]);
    assert!(is_watched(&list, &"AAPL".to_string()));
    assert!(is_watched(&list, &"MSFT".to_string()));
    assert!(is_watched(&list, &"".to_string()));
    assert!(!is_watched(&list, &"aapl".to_string()));
    assert!(!is_watched(&list, &"AAP".to_string()));
    assert!(!is_watched(&list, &"AAPL ".to_string()));
    assert!(!is_watched(&Vec::new(), &"AAPL".to_string()));
}

#[test]
fn filter_keeps_watched_records_in_snapshot_order() {
    let all = snapshot(&["TSLA", "AAPL", "GOOG", "MSFT"]);
    let chosen = filter_quotes(&all, &symbols(&["MSFT", "AAPL"]));
    assert_eq!(picked(&chosen), pairs(&[("AAPL", 1), ("MSFT", 3)]));
}

#[test]
fn filter_carries_every_field() {
    let all = snapshot(&["TSLA", "AAPL"]);
    let chosen = filter_quotes(&all, &symbols(&["AAPL"]));
    assert_eq!(chosen.len(), 1);
    assert_eq!(chosen[0].ticker, "AAPL");
    assert_eq!(f64::from_bits(chosen[0].price_bits), 13.5);
    assert_eq!(chosen[0].volume, 1);
    assert_eq!(chosen[0].timestamp, 1001);
}

#[test]
fn filter_with_no_match_is_empty() {
    let all = snapshot(&["TSLA", "AAPL"]);
    assert!(filter_quotes(&all, &symbols(&["GOOG"])).is_empty());
    assert!(filter_quotes(&all, &Vec::new()).is_empty());
    assert!(filter_quotes(&Vec::new(), &symbols(&["AAPL"])).is_empty());
    assert!(filter_quotes(&all, &symbols(&["aapl", "TSL", ""])).is_empty());
}

#[test]
fn filter_ignores_order_and_duplicates_of_the_watch_list() {
    let all = snapshot(&["TSLA", "AAPL", "GOOG", "MSFT"]);
    let once = filter_quotes(&all, &symbols(&["AAPL", "TSLA"]));
    let other = filter_quotes(&all, &symbols(&["TSLA", "TSLA", "AAPL", "TSLA", "NONE"]));
    assert_eq!(picked(&once), pairs(&[("TSLA", 0), ("AAPL", 1)]));
    assert_eq!(picked(&once), picked(&other));
}

#[test]
fn filter_keeps_every_record_of_a_repeated_ticker() {
    let all = snapshot(&["AAPL", "TSLA", "AAPL"]);
    let chosen = filter_quotes(&all, &symbols(&["AAPL"]));
    assert_eq!(picked(&chosen), pairs(&[("AAPL", 0), ("AAPL", 2)]));
}

#[test]
fn filter_of_two_snapshots_end_to_end() {
    let first = snapshot(&["AAPL", "TSLA"]);
    let second = snapshot(&["MSFT", "AAPL", "GOOG"]);
    let mut both = snapshot(&["AAPL", "TSLA"]);
    both.extend(snapshot(&["MSFT", "AAPL", "GOOG"]));
    let list = symbols(&["AAPL", "GOOG"]);
    let mut expected = picked(&filter_quotes(&first, &list));
    expected.extend(picked(&filter_quotes(&second, &list)));
    assert_eq!(picked(&filter_quotes(&both, &list)), expected);
    assert_eq!(expected, pairs(&[("AAPL", 0), ("AAPL", 1), ("GOOG", 2)]));
}

#[test]
fn plan_has_one_delivery_for_each_subscriber() {
    let all = snapshot(&["AAPL", "MSFT", "TSLA"]);
    let listing = vec![
        (9001u16, symbols(&["AAPL", "MSFT"])),
        (9002u16, symbols(&["NONE"])),
        (9003u16, symbols(&["TSLA"])),
    ];
    let plan = plan_deliveries(&listing, &all);
    assert_eq!(plan.len(), 3);
    assert_eq!(plan[0].port, 9001);
    assert_eq!(picked(&plan[0].quotes), pairs(&[("AAPL", 0), ("MSFT", 1)]));
    assert_eq!(plan[1].port, 9002);
    assert!(plan[1].quotes.is_empty());
    assert_eq!(plan[2].port, 9003);
    assert_eq!(picked(&plan[2].quotes), pairs(&[("TSLA", 2)]));
}

#[test]
fn plan_for_nobody_is_empty() {
    assert!(plan_deliveries(&Vec::new(), &snapshot(&["AAPL"])).is_empty());
}

#[test]
fn plan_of_an_empty_snapshot_still_serves_everyone() {
    let listing = vec![(9001u16, symbols(&["AAPL"])), (9002u16, symbols(&["MSFT"]))];
    let plan = plan_deliveries(&listing, &Vec::new());
    assert_eq!(plan.len(), 2);
    assert!(plan.iter().all(|delivery| delivery.quotes.is_empty()));
}

#[test]
fn broadcast_serves_each_registered_subscriber_once() {
    let mut registry = SubscriptionRegistry::new();
    assert!(registry.register(9001, symbols(&["AAPL", "MSFT"]), 0).is_ok());
    assert!(registry.register(9002, symbols(&["NONE"]), 0).is_ok());
    assert!(registry.register(9003, symbols(&["TSLA", "AAPL"]), 0).is_ok());
    assert!(registry.register(9003, symbols(&["GOOG"]), 0).is_err());
    let mut plan = broadcast(&registry, &snapshot(&["AAPL", "MSFT", "TSLA"]));
    plan.sort_by_key(|delivery| delivery.port);
    let ports: Vec<u16> = plan.iter().map(|delivery| delivery.port).collect();
    assert_eq!(ports, vec![9001, 9002, 9003]);
    assert_eq!(picked(&plan[0].quotes), pairs(&[("AAPL", 0), ("MSFT", 1)]));
    assert!(plan[1].quotes.is_empty());
    assert_eq!(picked(&plan[2].quotes), pairs(&[("AAPL", 0), ("TSLA", 2)]));
}

#[test]
fn broadcast_to_an_empty_registry_sends_nothing() {
    let registry = SubscriptionRegistry::new();
    assert!(broadcast(&registry, &snapshot(&["AAPL"])).is_empty());
}

use quote_stream::quote::{volume_band_of, StockQuote};

#[test]
fn volume_bands() {
    assert_eq!(volume_band_of("AAPL"), (1000, 5000));
    assert_eq!(volume_band_of("MSFT"), (1000, 5000));
    assert_eq!(volume_band_of("TSLA"), (1000, 5000));
    assert_eq!(volume_band_of("GOOG"), (100, 1000));
    assert_eq!(volume_band_of("aapl"), (100, 1000));
    assert_eq!(volume_band_of("AAPL "), (100, 1000));
    assert_eq!(volume_band_of(""), (100, 1000));
}

#[test]
fn new_quote() {
    let quote = StockQuote::new("AAPL", 42.25f64.to_bits(), 4999, 1700000000000);
    assert_eq!(quote.ticker, "AAPL");
    assert_eq!(f64::from_bits(quote.price_bits), 42.25);
    assert_eq!(quote.volume, 5999);
    assert_eq!(quote.timestamp, 1700000000000);
    let other = StockQuote::new("NFLX", 0, 0, 0);
    assert_eq!(other.ticker, "NFLX");
    assert_eq!(other.price_bits, 0);
    assert_eq!(other.volume, 100);
    assert_eq!(other.timestamp, 0);
}

#[test]
fn generate_moves_everything_but_the_ticker() {
    let mut quote = StockQuote::new("NFLX", 1, 2, 3);
    assert_eq!(quote.volume, 102);
    quote.generate(10, 999, 30);
    assert_eq!(quote.ticker, "NFLX");
    assert_eq!(quote.price_bits, 10);
    assert_eq!(quote.volume, 1099);
    assert_eq!(quote.timestamp, 30);
}

#[test]
fn generate_keeps_the_volume_in_the_band() {
    let mut heavy = StockQuote::new("TSLA", 0, 0, 0);
    assert_eq!(heavy.volume, 1000);
    heavy.generate(0, 5000, 0);
    assert_eq!(heavy.volume, 1000);
    heavy.generate(0, 5001, 0);
    assert_eq!(heavy.volume, 1001);
    heavy.generate(0, u32::MAX, 0);
    assert_eq!(heavy.volume, 1000 + u32::MAX % 5000);
    let mut light = StockQuote::new("IBM", 0, 1000, 0);
    assert_eq!(light.volume, 100);
    light.generate(0, u32::MAX, 0);
    assert_eq!(light.volume, 100 + u32::MAX % 1000);
}

#[test]
fn duplicate_copies_every_field() {
    let quote = StockQuote::new("MSFT", 77, 5, 9);
    let copy = quote.duplicate();
    assert_eq!(copy.ticker, "MSFT");
    assert_eq!(copy.price_bits, 77);
    assert_eq!(copy.volume, 1005);
    assert_eq!(copy.timestamp, 9);
}

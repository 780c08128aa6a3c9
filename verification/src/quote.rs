//! Quote records, as the broadcaster carries them.

use vstd::prelude::*;

verus! {

/// One instrument's quote.
///
/// The broadcaster reads the ticker and carries the rest. The price is a
/// 64-bit binary floating-point number, kept here as its bit pattern.
#[derive(Debug)]
pub struct StockQuote {
    pub ticker: String,
    pub price_bits: u64,
    pub volume: u32,
    pub timestamp: u64,
}

/// What a quote means.
pub struct StockQuoteView {
    pub ticker: Seq<char>,
    pub price_bits: u64,
    pub volume: u32,
    pub timestamp: u64,
}

impl View for StockQuote {
    type V = StockQuoteView;

    open spec fn view(&self) -> StockQuoteView {
        StockQuoteView {
            ticker: self.ticker@,
            price_bits: self.price_bits,
            volume: self.volume,
            timestamp: self.timestamp,
        }
    }
}

/// What a list of quotes means.
pub open spec fn quotes_of(list: Seq<StockQuote>) -> Seq<StockQuoteView> {
    Seq::new(list.len(), |i: int| list[i]@)
}

/// Whether `ticker` is one of the heavily traded instruments.
pub open spec fn is_heavily_traded(ticker: Seq<char>) -> bool {
    ticker == "AAPL"@ || ticker == "MSFT"@ || ticker == "TSLA"@
}

/// The least volume of an instrument, and the number of volumes above it
/// that it can take: 1000 and 5000 for the heavily traded ones, 100 and
/// 1000 for the others.
pub open spec fn volume_band(ticker: Seq<char>) -> (u32, u32) {
    if is_heavily_traded(ticker) {
        (1000u32, 5000u32)
    } else {
        (100u32, 1000u32)
    }
}

/// The volume that `draw` picks for `ticker`: the band's least volume plus
/// `draw`, reduced to the band's width.
pub open spec fn volume_of(ticker: Seq<char>, draw: u32) -> u32 {
    (volume_band(ticker).0 + draw % volume_band(ticker).1) as u32
}

/// Computes [`volume_band`].
pub fn volume_band_of(ticker: &str) -> (band: (u32, u32))
    ensures
        band == volume_band(ticker@),
{
    let name = ticker.to_owned();
    if name == "AAPL".to_owned() || name == "MSFT".to_owned() || name == "TSLA".to_owned() {
        (1000, 5000)
    } else {
        (100, 1000)
    }
}

impl StockQuote {
    /// A first quote of `ticker`: see [`StockQuote::generate`].
    pub fn new(ticker: &str, price_bits: u64, volume_draw: u32, timestamp: u64) -> (quote: Self)
        ensures
            quote@ == (StockQuoteView {
                ticker: ticker@,
                price_bits,
                volume: volume_of(ticker@, volume_draw),
                timestamp,
            }),
    {
        let mut quote = StockQuote { ticker: ticker.to_owned(), price_bits: 0, volume: 0, timestamp: 0 };
        quote.generate(price_bits, volume_draw, timestamp);
        quote
    }

    /// Moves the quote on: to the price with the bit pattern `price_bits`,
    /// to the volume that `volume_draw` picks in the ticker's band, and to
    /// the time `timestamp`. The ticker stays.
    pub fn generate(&mut self, price_bits: u64, volume_draw: u32, timestamp: u64)
        ensures
            final(self)@ == (StockQuoteView {
                ticker: old(self)@.ticker,
                price_bits,
                volume: volume_of(old(self)@.ticker, volume_draw),
                timestamp,
            }),
    {
        let band = volume_band_of(self.ticker.as_str());
        self.price_bits = price_bits;
        self.volume = band.0 + volume_draw % band.1;
        self.timestamp = timestamp;
    }

    /// A copy of the quote.
    pub fn duplicate(&self) -> (copy: Self)
        ensures
            copy@ == self@,
    {
        StockQuote {
            ticker: self.ticker.clone(),
            price_bits: self.price_bits,
            volume: self.volume,
            timestamp: self.timestamp,
        }
    }
}

} // verus!

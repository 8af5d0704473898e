//! The oracle's market snapshot: the USDT quotes it passes on, and the
//! status line it stores for BTC.

use vstd::prelude::*;
use crate::market::{accepts, rule_accepts, SymbolRule};
use crate::symbol_map::SymbolMap;
use crate::text::{owned, same_text};

verus! {

/// A ticker as the oracle reads it: symbol, last price and volume, as text.
pub struct Ticker {
    pub symbol: String,
    pub price: String,
    pub volume: String,
}

/// A quote passed on for one symbol.
pub struct Quote {
    pub price: String,
    pub volume: String,
}

impl View for Quote {
    type V = (Seq<char>, Seq<char>);

    open spec fn view(&self) -> (Seq<char>, Seq<char>) {
        (self.price@, self.volume@)
    }
}

pub open spec fn ticker_view(t: Ticker) -> (Seq<char>, Seq<char>, Seq<char>) {
    (t.symbol@, t.price@, t.volume@)
}

/// The BTC status line before any BTC ticker is seen.
pub open spec fn unknown_status() -> Seq<char> {
    "Unknown"@
}

/// The BTC status line `"$<price> | Vol: <volume>"`.
pub open spec fn spec_btc_status_line(price: Seq<char>, volume: Seq<char>) -> Seq<char> {
    "$"@ + price + " | Vol: "@ + volume
}

/// The quotes of the USDT symbols among `tickers`, a later ticker for a
/// symbol replacing an earlier one.
pub open spec fn spec_usdt_quotes(tickers: Seq<(Seq<char>, Seq<char>, Seq<char>)>) -> Map<Seq<char>, (Seq<char>, Seq<char>)>
    decreases tickers.len(),
{
    if tickers.len() == 0 {
        Map::empty()
    } else {
        let rest = spec_usdt_quotes(tickers.drop_last());
        let t = tickers.last();
        if rule_accepts(SymbolRule::BinanceUsdtPair, t.0) {
            rest.insert(t.0, (t.1, t.2))
        } else {
            rest
        }
    }
}

/// The status line of the last `"BTCUSDT"` ticker, or `"Unknown"`.
pub open spec fn spec_btc_status(tickers: Seq<(Seq<char>, Seq<char>, Seq<char>)>) -> Seq<char>
    decreases tickers.len(),
{
    if tickers.len() == 0 {
        unknown_status()
    } else {
        let t = tickers.last();
        if t.0 == "BTCUSDT"@ {
            spec_btc_status_line(t.1, t.2)
        } else {
            spec_btc_status(tickers.drop_last())
        }
    }
}

/// The BTC status line for a price and a volume.
pub fn btc_status_line(price: &str, volume: &str) -> (r: String)
    ensures
        r@ == spec_btc_status_line(price@, volume@),
{
    let mut r: String = owned("$");
    r.append(price);
    r.append(" | Vol: ");
    r.append(volume);
    r
}

/// What the oracle makes of one round of tickers.
pub struct MarketSnapshot {
    /// The USDT quotes, by symbol.
    pub quotes: SymbolMap<Quote>,
    /// The BTC status line to store.
    pub btc_status: String,
}

/// The snapshot of a round of tickers: every ticker whose symbol ends in
/// `"USDT"` becomes the quote of its symbol (the last one wins), and the
/// last `"BTCUSDT"` ticker gives the BTC status line.
pub fn market_snapshot(tickers: &Vec<Ticker>) -> (s: MarketSnapshot)
    ensures
        s.quotes@.map_values(|q: Quote| q@) == spec_usdt_quotes(tickers@.map_values(|t: Ticker| ticker_view(t))),
        s.btc_status@ == spec_btc_status(tickers@.map_values(|t: Ticker| ticker_view(t))),
{
    let ghost tv = tickers@.map_values(|t: Ticker| ticker_view(t));
    let mut quotes: SymbolMap<Quote> = SymbolMap::new();
    let mut status: String = owned("Unknown");
    let mut i: usize = 0;
    assert(quotes@.map_values(|q: Quote| q@) =~= spec_usdt_quotes(tv.take(0)));
    while i < tickers.len()
        invariant
            i <= tickers@.len(),
            tv == tickers@.map_values(|t: Ticker| ticker_view(t)),
            quotes@.map_values(|q: Quote| q@) == spec_usdt_quotes(tv.take(i as int)),
            status@ == spec_btc_status(tv.take(i as int)),
        decreases tickers.len() - i,
    {
        let t: &Ticker = &tickers[i];
        let ghost before = quotes@;
        proof {
            let p = tv.take(i + 1);
            assert(p.drop_last() =~= tv.take(i as int));
            assert(p.last() == ticker_view(*t));
        }
        if accepts(SymbolRule::BinanceUsdtPair, t.symbol.as_str()) {
            quotes.insert(t.symbol.clone(), Quote { price: t.price.clone(), volume: t.volume.clone() });
            assert(quotes@.map_values(|q: Quote| q@) =~= before.map_values(|q: Quote| q@).insert(
                t.symbol@,
                (t.price@, t.volume@),
            ));
            if same_text(t.symbol.as_str(), "BTCUSDT") {
                status = btc_status_line(t.price.as_str(), t.volume.as_str());
            }
        } else {
            proof {
                if t.symbol@ == "BTCUSDT"@ {
                    reveal_strlit("BTCUSDT");
                    reveal_strlit("USDT");
                    assert(t.symbol@.subrange(3, 7) =~= "USDT"@);
                }
            }
        }
        i = i + 1;
    }
    assert(tv.take(i as int) =~= tv);
    MarketSnapshot { quotes, btc_status: status }
}

/// Law (BTC status): before any ticker the status is `"Unknown"`; a ticker
/// whose symbol is exactly `"BTCUSDT"` sets it to `"$<price> | Vol:
/// <volume>"`; a ticker with any other symbol (`"WBTCUSDT"` among them)
/// leaves it as it was.
pub proof fn law_btc_status_follows_btcusdt_only(
    tickers: Seq<(Seq<char>, Seq<char>, Seq<char>)>,
    t: (Seq<char>, Seq<char>, Seq<char>),
)
    ensures
        spec_btc_status(Seq::empty()) == "Unknown"@,
        t.0 == "BTCUSDT"@ ==> spec_btc_status(tickers.push(t)) == "$"@ + t.1 + " | Vol: "@ + t.2,
        t.0 != "BTCUSDT"@ ==> spec_btc_status(tickers.push(t)) == spec_btc_status(tickers),
{
    assert(tickers.push(t).drop_last() =~= tickers);
}

/// Law (quotes): a ticker whose symbol ends in `"USDT"` becomes the quote
/// of its symbol, replacing any earlier one, and leaves the other quotes as
/// they were; a ticker with another symbol changes no quote.
pub proof fn law_quotes_last_usdt_ticker_wins(
    tickers: Seq<(Seq<char>, Seq<char>, Seq<char>)>,
    t: (Seq<char>, Seq<char>, Seq<char>),
)
    ensures
        spec_usdt_quotes(Seq::empty()) == Map::<Seq<char>, (Seq<char>, Seq<char>)>::empty(),
        crate::text::has_suffix(t.0, "USDT"@) ==> spec_usdt_quotes(tickers.push(t)) == spec_usdt_quotes(
            tickers,
        ).insert(t.0, (t.1, t.2)),
        !crate::text::has_suffix(t.0, "USDT"@) ==> spec_usdt_quotes(tickers.push(t)) == spec_usdt_quotes(
            tickers,
        ),
{
    assert(tickers.push(t).drop_last() =~= tickers);
}

} // verus!

//! The addresses the services call, by symbol.

use vstd::prelude::*;
use crate::text::owned;

verus! {

fn with_symbol(base: &str, symbol: &str) -> (r: String)
    ensures
        r@ == base@ + symbol@,
{
    let mut r: String = owned(base);
    r.append(symbol);
    r
}

/// The analyzer's analysis of `symbol`.
pub fn analyzer_url(symbol: &str) -> (r: String)
    ensures
        r@ == "http://127.0.0.1:3497/analyze/"@ + symbol@,
{
    with_symbol("http://127.0.0.1:3497/analyze/", symbol)
}

/// The analyzer's memory of `symbol`.
pub fn analyzer_memory_url(symbol: &str) -> (r: String)
    ensures
        r@ == "http://127.0.0.1:3497/update_ai_memory/"@ + symbol@,
{
    with_symbol("http://127.0.0.1:3497/update_ai_memory/", symbol)
}

/// KuCoin's best bid and ask for `symbol`.
pub fn price_url(symbol: &str) -> (r: String)
    ensures
        r@ == "https://api.kucoin.com/api/v1/market/orderbook/level1?symbol="@ + symbol@,
{
    with_symbol("https://api.kucoin.com/api/v1/market/orderbook/level1?symbol=", symbol)
}

/// KuCoin's 20-level order book for `symbol`.
pub fn order_book_url(symbol: &str) -> (r: String)
    ensures
        r@ == "https://api.kucoin.com/api/v1/market/orderbook/level2_20?symbol="@ + symbol@,
{
    with_symbol("https://api.kucoin.com/api/v1/market/orderbook/level2_20?symbol=", symbol)
}

/// KuCoin's 15-minute candles for `symbol`.
pub fn candles_url(symbol: &str) -> (r: String)
    ensures
        r@ == "https://api.kucoin.com/api/v1/market/candles?type=15min&symbol="@ + symbol@,
{
    with_symbol("https://api.kucoin.com/api/v1/market/candles?type=15min&symbol=", symbol)
}

} // verus!

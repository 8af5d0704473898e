//! Which market symbols the services trade and watch, and how ranked
//! candidates become the lists they work on.

use vstd::prelude::*;
use crate::number::{parse_i64, spec_parse_i64};
use crate::text::{contains, ends_with, has_substring, has_suffix, occurs_at, owned, texts};

verus! {

/// How many top movers the engine adds to its watch list each round.
pub const TOP_PAIRS_WATCHED: usize = 12;

/// How many hot symbols the scraper keeps.
pub const HOT_SYMBOL_LIMIT: usize = 20;

/// The candles the scraper stores per symbol and round.
pub const CANDLES_PER_SYMBOL: usize = 10;

/// A rule on symbols.
#[derive(Clone, Copy, Debug, PartialEq, Eq, Structural)]
pub enum SymbolRule {
    /// A KuCoin pair quoted in USDT (`"...-USDT"`) that is not a
    /// leveraged token (no `"3L"`, no `"3S"`).
    KucoinSpotUsdtPair,
    /// A Binance symbol quoted in USDT (`"...USDT"`).
    BinanceUsdtPair,
}

/// Whether `rule` accepts the symbol `s`.
pub open spec fn rule_accepts(rule: SymbolRule, s: Seq<char>) -> bool {
    match rule {
        SymbolRule::KucoinSpotUsdtPair => has_suffix(s, "-USDT"@) && !has_substring(s, "3L"@)
            && !has_substring(s, "3S"@),
        SymbolRule::BinanceUsdtPair => has_suffix(s, "USDT"@),
    }
}

/// Whether `rule` accepts `symbol`.
pub fn accepts(rule: SymbolRule, symbol: &str) -> (r: bool)
    ensures
        r == rule_accepts(rule, symbol@),
{
    match rule {
        SymbolRule::KucoinSpotUsdtPair => ends_with(symbol, "-USDT") && !contains(symbol, "3L")
            && !contains(symbol, "3S"),
        SymbolRule::BinanceUsdtPair => ends_with(symbol, "USDT"),
    }
}


/// Whether the candidate at position `i` is taken: `i` is a position of
/// both lists, the candidate is marked eligible, and `rule` accepts its
/// symbol.
pub open spec fn candidate_taken(rule: SymbolRule, symbols: Seq<Seq<char>>, eligible: Seq<bool>, i: usize) -> bool {
    &&& i < symbols.len()
    &&& i < eligible.len()
    &&& eligible[i as int]
    &&& rule_accepts(rule, symbols[i as int])
}

/// The symbols of the taken candidates, in the order `ranking` visits
/// their positions.
pub open spec fn spec_select_ranked(
    rule: SymbolRule,
    symbols: Seq<Seq<char>>,
    eligible: Seq<bool>,
    ranking: Seq<usize>,
) -> Seq<Seq<char>>
    decreases ranking.len(),
{
    if ranking.len() == 0 {
        Seq::empty()
    } else {
        let rest = spec_select_ranked(rule, symbols, eligible, ranking.drop_last());
        let i = ranking.last();
        if candidate_taken(rule, symbols, eligible, i) {
            rest.push(symbols[i as int])
        } else {
            rest
        }
    }
}

/// The ranked candidates: the symbols of `symbols` that `rule` accepts and
/// `eligible` marks (enough volume, readable figures), in the order given
/// by `ranking`, the positions sorted by the market's change rate.
pub fn select_ranked(
    rule: SymbolRule,
    symbols: &Vec<String>,
    eligible: &Vec<bool>,
    ranking: &Vec<usize>,
) -> (r: Vec<String>)
    ensures
        texts(r@) == spec_select_ranked(rule, texts(symbols@), eligible@, ranking@),
{
    let ghost sv = texts(symbols@);
    let mut r: Vec<String> = Vec::new();
    let mut k: usize = 0;
    while k < ranking.len()
        invariant
            k <= ranking@.len(),
            sv == texts(symbols@),
            texts(r@) == spec_select_ranked(rule, sv, eligible@, ranking@.take(k as int)),
        decreases ranking.len() - k,
    {
        let i: usize = ranking[k];
        proof {
            let t = ranking@.take(k + 1);
            assert(t.drop_last() =~= ranking@.take(k as int));
            assert(t.last() == i);
        }
        if i < symbols.len() && i < eligible.len() && eligible[i] && accepts(rule, symbols[i].as_str()) {
            let ghost before = r@;
            r.push(symbols[i].clone());
            assert(texts(r@) =~= texts(before).push(sv[i as int]));
        }
        k = k + 1;
    }
    assert(ranking@.take(k as int) =~= ranking@);
    r
}

/// Every symbol of a selection is one that `rule` accepts.
proof fn lemma_selection_accepted(
    rule: SymbolRule,
    symbols: Seq<Seq<char>>,
    eligible: Seq<bool>,
    ranking: Seq<usize>,
)
    ensures
        forall|j: int| 0 <= j < spec_select_ranked(rule, symbols, eligible, ranking).len()
            ==> rule_accepts(rule, #[trigger] spec_select_ranked(rule, symbols, eligible, ranking)[j]),
    decreases ranking.len(),
{
    if ranking.len() > 0 {
        let rest = spec_select_ranked(rule, symbols, eligible, ranking.drop_last());
        lemma_selection_accepted(rule, symbols, eligible, ranking.drop_last());
        let sel = spec_select_ranked(rule, symbols, eligible, ranking);
        assert forall|j: int| 0 <= j < sel.len() implies rule_accepts(rule, #[trigger] sel[j]) by {
            if j < rest.len() {
                assert(sel[j] == rest[j]);
            }
        }
    }
}

/// Law (ranked selection): the selection is the positions of `ranking`
/// that name a candidate present in both lists, marked eligible and
/// accepted by `rule`, kept in ranking order, each giving its own symbol.
/// A candidate's eligibility is read at its own position, never at its
/// rank.
pub proof fn law_selection_is_ranked_filter(
    rule: SymbolRule,
    symbols: Seq<Seq<char>>,
    eligible: Seq<bool>,
    ranking: Seq<usize>,
)
    ensures
        spec_select_ranked(rule, symbols, eligible, ranking) == ranking.filter(
            |i: usize|
                i < symbols.len() && i < eligible.len() && eligible[i as int] && rule_accepts(
                    rule,
                    symbols[i as int],
                ),
        ).map_values(|i: usize| symbols[i as int]),
    decreases ranking.len(),
{
    let pred = |i: usize|
        i < symbols.len() && i < eligible.len() && eligible[i as int] && rule_accepts(rule, symbols[i as int]);
    let f = |i: usize| symbols[i as int];
    reveal(Seq::filter);
    if ranking.len() > 0 {
        law_selection_is_ranked_filter(rule, symbols, eligible, ranking.drop_last());
        let sub = ranking.drop_last().filter(pred);
        if pred(ranking.last()) {
            assert(sub.push(ranking.last()).map_values(f) =~= sub.map_values(f).push(f(ranking.last())));
        }
    } else {
        assert(ranking.filter(pred).map_values(f) =~= Seq::<Seq<char>>::empty());
    }
}

/// Law (ranked selection): every ranked candidate that is eligible at its
/// own position and accepted by `rule` is selected.
pub proof fn law_eligible_ranked_candidates_selected(
    rule: SymbolRule,
    symbols: Seq<Seq<char>>,
    eligible: Seq<bool>,
    ranking: Seq<usize>,
)
    ensures
        forall|p: int|
            0 <= p < ranking.len() && (#[trigger] ranking[p]) < symbols.len() && ranking[p] < eligible.len()
                && eligible[ranking[p] as int] && rule_accepts(rule, symbols[ranking[p] as int])
                ==> spec_select_ranked(rule, symbols, eligible, ranking).contains(symbols[ranking[p] as int]),
    decreases ranking.len(),
{
    if ranking.len() > 0 {
        let t = ranking.drop_last();
        law_eligible_ranked_candidates_selected(rule, symbols, eligible, t);
        let rest = spec_select_ranked(rule, symbols, eligible, t);
        let sel = spec_select_ranked(rule, symbols, eligible, ranking);
        let n = ranking.len() - 1;
        assert forall|p: int|
            0 <= p < ranking.len() && (#[trigger] ranking[p]) < symbols.len() && ranking[p] < eligible.len()
                && eligible[ranking[p] as int] && rule_accepts(rule, symbols[ranking[p] as int])
            implies sel.contains(symbols[ranking[p] as int]) by {
            if p < n {
                assert(t[p] == ranking[p]);
                assert(rest.contains(symbols[t[p] as int]));
                let k = choose|k: int| 0 <= k < rest.len() && rest[k] == symbols[t[p] as int];
                assert(sel[k] == rest[k]);
            } else {
                assert(sel[sel.len() - 1] == symbols[ranking[p] as int]);
            }
        }
    }
}

/// The first `n` elements of `s`, or all of them when there are fewer.
pub open spec fn first_n(s: Seq<Seq<char>>, n: nat) -> Seq<Seq<char>> {
    if n < s.len() { s.take(n as int) } else { s }
}

/// The symbol the engine falls back on when the market list cannot be read.
pub open spec fn fallback_top_pair() -> Seq<char> {
    "BTC-USDT"@
}

/// The engine's top pairs: the first `limit` ranked pairs, or only the
/// fallback pair when the market list could not be read.
pub open spec fn spec_top_pairs(ranked: Option<Seq<Seq<char>>>, limit: nat) -> Seq<Seq<char>> {
    match ranked {
        Some(v) => first_n(v, limit),
        None => seq![fallback_top_pair()],
    }
}

/// The engine's top pairs: the first `limit` ranked pairs, or only
/// `"BTC-USDT"` when the market list could not be read (`None`).
pub fn top_pairs(ranked: Option<Vec<String>>, limit: usize) -> (r: Vec<String>)
    ensures
        texts(r@) == spec_top_pairs(
            match ranked {
                Some(v) => Some(texts(v@)),
                None => None,
            },
            limit as nat,
        ),
{
    match ranked {
        Some(v) => {
            let mut v: Vec<String> = v;
            let ghost before = v@;
            v.truncate(limit);
            assert(texts(v@) =~= first_n(texts(before), limit as nat));
            v
        },
        None => {
            let mut r: Vec<String> = Vec::new();
            r.push(owned("BTC-USDT"));
            assert(texts(r@) =~= seq![fallback_top_pair()]);
            r
        },
    }
}

/// The symbols the scraper falls back on when it finds no hot symbol.
pub open spec fn fallback_hot_symbols() -> Seq<Seq<char>> {
    seq!["BTC-USDT"@, "ETH-USDT"@, "SOL-USDT"@]
}

/// The scraper's hot symbols: the first `HOT_SYMBOL_LIMIT` ranked
/// candidates, or the fallback symbols when there is none.
pub open spec fn spec_hot_symbols(ranked: Seq<Seq<char>>) -> Seq<Seq<char>> {
    if ranked.len() == 0 {
        fallback_hot_symbols()
    } else {
        first_n(ranked, HOT_SYMBOL_LIMIT as nat)
    }
}

/// The scraper's hot symbols: the first `HOT_SYMBOL_LIMIT` ranked
/// candidates, or BTC, ETH and SOL when there is none.
pub fn hot_symbols(ranked: Vec<String>) -> (r: Vec<String>)
    ensures
        texts(r@) == spec_hot_symbols(texts(ranked@)),
{
    if ranked.len() == 0 {
        let mut r: Vec<String> = Vec::new();
        r.push(owned("BTC-USDT"));
        r.push(owned("ETH-USDT"));
        r.push(owned("SOL-USDT"));
        assert(texts(r@) =~= fallback_hot_symbols());
        r
    } else {
        let mut v: Vec<String> = ranked;
        let ghost before = v@;
        v.truncate(HOT_SYMBOL_LIMIT);
        assert(texts(v@) =~= first_n(texts(before), HOT_SYMBOL_LIMIT as nat));
        v
    }
}

/// A text without the character `'3'` holds neither `"3L"` nor `"3S"`.
proof fn lemma_no_leverage_marker(s: Seq<char>)
    requires
        forall|k: int| 0 <= k < s.len() ==> s[k] != '3',
    ensures
        !has_substring(s, "3L"@),
        !has_substring(s, "3S"@),
{
    reveal_strlit("3L");
    reveal_strlit("3S");
    assert forall|i: int| !occurs_at(s, "3L"@, i) && !occurs_at(s, "3S"@, i) by {
        if 0 <= i && i + 2 <= s.len() {
            assert(s.subrange(i, i + 2)[0] == s[i]);
        }
    }
}

/// The fallback symbols are spot USDT pairs.
proof fn lemma_fallbacks_are_spot()
    ensures
        forall|j: int| 0 <= j < fallback_hot_symbols().len()
            ==> rule_accepts(SymbolRule::KucoinSpotUsdtPair, #[trigger] fallback_hot_symbols()[j]),
        rule_accepts(SymbolRule::KucoinSpotUsdtPair, fallback_top_pair()),
{
    reveal_strlit("-USDT");
    reveal_strlit("BTC-USDT");
    reveal_strlit("ETH-USDT");
    reveal_strlit("SOL-USDT");
    assert("BTC-USDT"@.subrange(3, 8) =~= "-USDT"@);
    assert("ETH-USDT"@.subrange(3, 8) =~= "-USDT"@);
    assert("SOL-USDT"@.subrange(3, 8) =~= "-USDT"@);
    lemma_no_leverage_marker("BTC-USDT"@);
    lemma_no_leverage_marker("ETH-USDT"@);
    lemma_no_leverage_marker("SOL-USDT"@);
    assert(fallback_hot_symbols()[0] == "BTC-USDT"@);
    assert(fallback_hot_symbols()[1] == "ETH-USDT"@);
    assert(fallback_hot_symbols()[2] == "SOL-USDT"@);
}

/// Law (no leverage): every symbol the scraper picks from the ranked spot
/// candidates is a USDT pair that is not a leveraged token.
pub proof fn law_hot_symbols_are_spot_pairs(symbols: Seq<Seq<char>>, eligible: Seq<bool>, ranking: Seq<usize>)
    ensures
        forall|j: int|
            0 <= j < spec_hot_symbols(
                spec_select_ranked(SymbolRule::KucoinSpotUsdtPair, symbols, eligible, ranking),
            ).len() ==> rule_accepts(
                SymbolRule::KucoinSpotUsdtPair,
                #[trigger] spec_hot_symbols(
                    spec_select_ranked(SymbolRule::KucoinSpotUsdtPair, symbols, eligible, ranking),
                )[j],
            ),
{
    let sel = spec_select_ranked(SymbolRule::KucoinSpotUsdtPair, symbols, eligible, ranking);
    lemma_selection_accepted(SymbolRule::KucoinSpotUsdtPair, symbols, eligible, ranking);
    lemma_fallbacks_are_spot();
    assert forall|j: int| 0 <= j < spec_hot_symbols(sel).len() implies rule_accepts(
        SymbolRule::KucoinSpotUsdtPair,
        #[trigger] spec_hot_symbols(sel)[j],
    ) by {
        if sel.len() > 0 {
            assert(spec_hot_symbols(sel)[j] == sel[j]);
        }
    }
}

/// Law (no leverage): every pair the engine adds to its watch list from
/// the market is a USDT spot pair, not a leveraged token: both when the
/// market list was read and when the fallback pair stands in.
pub proof fn law_top_pairs_are_spot_pairs(
    symbols: Seq<Seq<char>>,
    eligible: Seq<bool>,
    ranking: Seq<usize>,
    limit: nat,
)
    ensures
        forall|j: int|
            0 <= j < spec_top_pairs(
                Some(spec_select_ranked(SymbolRule::KucoinSpotUsdtPair, symbols, eligible, ranking)),
                limit,
            ).len() ==> rule_accepts(
                SymbolRule::KucoinSpotUsdtPair,
                #[trigger] spec_top_pairs(
                    Some(spec_select_ranked(SymbolRule::KucoinSpotUsdtPair, symbols, eligible, ranking)),
                    limit,
                )[j],
            ),
        forall|j: int| 0 <= j < spec_top_pairs(None, limit).len()
            ==> rule_accepts(SymbolRule::KucoinSpotUsdtPair, #[trigger] spec_top_pairs(None, limit)[j]),
{
    let sel = spec_select_ranked(SymbolRule::KucoinSpotUsdtPair, symbols, eligible, ranking);
    lemma_selection_accepted(SymbolRule::KucoinSpotUsdtPair, symbols, eligible, ranking);
    lemma_fallbacks_are_spot();
    assert forall|j: int| 0 <= j < spec_top_pairs(Some(sel), limit).len()
        implies rule_accepts(SymbolRule::KucoinSpotUsdtPair, #[trigger] spec_top_pairs(Some(sel), limit)[j]) by {
        assert(spec_top_pairs(Some(sel), limit)[j] == sel[j]);
    }
    assert(spec_top_pairs(None, limit)[0] == fallback_top_pair());
}

/// The open time of a candle: its first field read as an `i64`, with a
/// missing or unreadable field counting as 0.
pub fn kline_timestamp(field: Option<&str>) -> (ts: i64)
    ensures
        ts == match field {
            Some(f) => match spec_parse_i64(f@) {
                Some(v) => v,
                None => 0,
            },
            None => 0,
        },
{
    match field {
        Some(f) => match parse_i64(f) {
            Some(v) => v,
            None => 0,
        },
        None => 0,
    }
}

} // verus!

//! The trading engine's book of positions and its entry decisions.
//! Prices and quantities are the engine's own numbers: the book carries
//! them unread, as values of the type parameter `V`.

use vstd::prelude::*;
use crate::symbol_map::SymbolMap;
use crate::text::{owned, same_text, texts};

verus! {

/// The most positions the engine holds at once.
pub const MAX_POSITIONS: usize = 6;

/// Below this Fear & Greed score the engine opens no new position.
pub const MIN_FNG_FOR_NEW_POSITION: i32 = 20;

/// The engine's open positions: the quantity held, the entry price and the
/// highest price seen, each by symbol.
pub struct Portfolio<V> {
    pub holdings: SymbolMap<V>,
    pub entry_prices: SymbolMap<V>,
    pub highest_prices: SymbolMap<V>,
}

impl<V> Portfolio<V> {
    /// Every held symbol has an entry price and no other symbol has one,
    /// and a highest price is recorded only for held symbols.
    pub open spec fn consistent(&self) -> bool {
        &&& self.holdings@.dom() == self.entry_prices@.dom()
        &&& self.highest_prices@.dom().subset_of(self.holdings@.dom())
    }

    /// A book with no position.
    pub fn new() -> (p: Self)
        ensures
            p.holdings@ == Map::<Seq<char>, V>::empty(),
            p.entry_prices@ == Map::<Seq<char>, V>::empty(),
            p.highest_prices@ == Map::<Seq<char>, V>::empty(),
            p.consistent(),
    {
        Portfolio {
            holdings: SymbolMap::new(),
            entry_prices: SymbolMap::new(),
            highest_prices: SymbolMap::new(),
        }
    }

    /// The number of positions held.
    pub fn position_count(&self) -> (n: usize)
        ensures
            n == self.holdings@.dom().len(),
    {
        self.holdings.len()
    }

    /// The held symbols, in the order the book keeps them (a new one last).
    pub fn held_symbols(&self) -> (r: Vec<String>)
        ensures
            texts(r@) == self.holdings.key_seq(),
            texts(r@).no_duplicates(),
            forall|k: Seq<char>| #[trigger] texts(r@).contains(k) <==> self.holdings@.dom().contains(k),
    {
        let pairs: &Vec<(String, V)> = self.holdings.pairs();
        let mut r: Vec<String> = Vec::new();
        let mut i: usize = 0;
        while i < pairs.len()
            invariant
                i <= pairs@.len(),
                pairs@.len() == self.holdings.key_seq().len(),
                forall|j: int| 0 <= j < pairs@.len() ==> (#[trigger] pairs@[j]).0@ == self.holdings.key_seq()[j],
                r@.len() == i,
                texts(r@) == self.holdings.key_seq().take(i as int),
            decreases pairs.len() - i,
        {
            let sym: String = pairs[i].0.clone();
            assert(sym@ == self.holdings.key_seq()[i as int]);
            let ghost old_r = r@;
            r.push(sym);
            proof {
                let k = self.holdings.key_seq();
                assert(r@ == old_r.push(sym));
                assert forall|j: int| 0 <= j < i + 1 implies #[trigger] texts(r@)[j] == k.take(i + 1)[j] by {
                    if j < i {
                        assert(texts(old_r)[j] == k.take(i as int)[j]);
                        assert(r@[j] == old_r[j]);
                    }
                }
            }
            i = i + 1;
            assert(texts(r@) =~= self.holdings.key_seq().take(i as int));
        }
        assert(self.holdings.key_seq().take(i as int) =~= self.holdings.key_seq());
        r
    }

    /// Opens a position on `symbol`: `qty` held, bought at `price`, which is
    /// also the highest price seen so far.
    pub fn open_position(&mut self, symbol: &str, qty: V, price: V)
        where V: Copy,
        ensures
            final(self).holdings@ == old(self).holdings@.insert(symbol@, qty),
            final(self).entry_prices@ == old(self).entry_prices@.insert(symbol@, price),
            final(self).highest_prices@ == old(self).highest_prices@.insert(symbol@, price),
            old(self).consistent() ==> final(self).consistent(),
    {
        self.holdings.insert(owned(symbol), qty);
        self.entry_prices.insert(owned(symbol), price);
        self.highest_prices.insert(owned(symbol), price);
    }

    /// Closes the position on `symbol` and gives back the quantity held;
    /// when `symbol` is not held, nothing changes and the result is `None`.
    pub fn close_position(&mut self, symbol: &str) -> (r: Option<V>)
        ensures
            r is Some == old(self).holdings@.dom().contains(symbol@),
            r matches Some(q) ==> {
                &&& q == old(self).holdings@[symbol@]
                &&& final(self).holdings@ == old(self).holdings@.remove(symbol@)
                &&& final(self).entry_prices@ == old(self).entry_prices@.remove(symbol@)
                &&& final(self).highest_prices@ == old(self).highest_prices@.remove(symbol@)
            },
            r is None ==> {
                &&& final(self).holdings@ == old(self).holdings@
                &&& final(self).entry_prices@ == old(self).entry_prices@
                &&& final(self).highest_prices@ == old(self).highest_prices@
            },
            old(self).consistent() ==> final(self).consistent(),
    {
        match self.holdings.remove(symbol) {
            Some(q) => {
                self.entry_prices.remove(symbol);
                self.highest_prices.remove(symbol);
                Some(q)
            },
            None => {
                proof {
                    assert(self.holdings@ =~= old(self).holdings@);
                }
                None
            },
        }
    }

    /// Records `price` as the highest price seen for `symbol`.
    pub fn record_peak(&mut self, symbol: &str, price: V)
        ensures
            final(self).holdings@ == old(self).holdings@,
            final(self).entry_prices@ == old(self).entry_prices@,
            final(self).highest_prices@ == old(self).highest_prices@.insert(symbol@, price),
            old(self).consistent() && old(self).holdings@.dom().contains(symbol@)
                ==> final(self).consistent(),
    {
        self.highest_prices.insert(owned(symbol), price);
    }
}

/// Why a position was closed.
#[derive(Clone, Copy, Debug, PartialEq, Eq, Structural)]
pub enum ExitReason {
    /// The trailing stop locked in a profit.
    ProfitLocked,
    /// The loss reached the hard stop.
    StopLoss,
}

impl<V> Portfolio<V> {
    /// Acts on the exit rules' verdicts for `symbol`: when the trailing
    /// stop says to lock the profit, or else the hard stop says to cut the
    /// loss, and `symbol` is held, the position is closed and its quantity
    /// given back with the reason. Otherwise nothing changes.
    pub fn settle_exit(&mut self, symbol: &str, lock_profit: bool, stop_loss: bool) -> (r: Option<(ExitReason, V)>)
        ensures
            (lock_profit || stop_loss) && old(self).holdings@.dom().contains(symbol@) ==> {
                &&& r == Some((
                    if lock_profit { ExitReason::ProfitLocked } else { ExitReason::StopLoss },
                    old(self).holdings@[symbol@],
                ))
                &&& final(self).holdings@ == old(self).holdings@.remove(symbol@)
                &&& final(self).entry_prices@ == old(self).entry_prices@.remove(symbol@)
                &&& final(self).highest_prices@ == old(self).highest_prices@.remove(symbol@)
            },
            !((lock_profit || stop_loss) && old(self).holdings@.dom().contains(symbol@)) ==> {
                &&& r is None
                &&& final(self).holdings@ == old(self).holdings@
                &&& final(self).entry_prices@ == old(self).entry_prices@
                &&& final(self).highest_prices@ == old(self).highest_prices@
            },
            old(self).consistent() ==> final(self).consistent(),
    {
        if lock_profit {
            if let Some(q) = self.close_position(symbol) {
                return Some((ExitReason::ProfitLocked, q));
            }
        }
        if stop_loss {
            if let Some(q) = self.close_position(symbol) {
                return Some((ExitReason::StopLoss, q));
            }
        }
        None
    }
}

/// Whether the sentiment gate lets the engine consider `symbol`: a held
/// symbol always passes; a new one only when the Fear & Greed score is at
/// least `MIN_FNG_FOR_NEW_POSITION`.
pub open spec fn passes_sentiment_gate(holding: bool, fng_score: i32) -> bool {
    holding || fng_score >= MIN_FNG_FOR_NEW_POSITION
}

pub open spec fn spec_should_consult_ai(holding: bool, fng_score: i32, suggest_ask: bool) -> bool {
    passes_sentiment_gate(holding, fng_score) && (!holding || suggest_ask)
}

/// Whether the engine asks the AI about a symbol: it must pass the
/// sentiment gate, and be either new or flagged by the analyzer.
pub fn should_consult_ai(holding: bool, fng_score: i32, suggest_ask: bool) -> (r: bool)
    ensures
        r == spec_should_consult_ai(holding, fng_score, suggest_ask),
{
    let pass_gate: bool = holding || fng_score >= MIN_FNG_FOR_NEW_POSITION;
    pass_gate && (!holding || suggest_ask)
}

/// The action text with which the AI asks for a buy.
pub open spec fn buy_action() -> Seq<char> {
    seq!['B', 'U', 'Y']
}

pub open spec fn spec_buy_permitted(action: Seq<char>, holding: bool, open_positions: nat, funds_ok: bool) -> bool {
    &&& action == buy_action()
    &&& !holding
    &&& funds_ok
    &&& open_positions < MAX_POSITIONS
}

/// Whether the engine buys: the AI said `"BUY"`, the symbol is not held,
/// the balance covers the order (`funds_ok`) and fewer than
/// `MAX_POSITIONS` positions are open.
pub fn buy_permitted(action: &str, holding: bool, open_positions: usize, funds_ok: bool) -> (r: bool)
    ensures
        r == spec_buy_permitted(action@, holding, open_positions as nat, funds_ok),
{
    proof {
        reveal_strlit("BUY");
        assert("BUY"@ =~= buy_action());
    }
    same_text(action, "BUY") && !holding && funds_ok && open_positions < MAX_POSITIONS
}

/// The symbols the engine looks at in one round: the held symbols, then
/// each top symbol that is not already listed.
pub open spec fn spec_watch_list(held: Seq<Seq<char>>, top: Seq<Seq<char>>) -> Seq<Seq<char>>
    decreases top.len(),
{
    if top.len() == 0 {
        held
    } else {
        let w = spec_watch_list(held, top.drop_last());
        if w.contains(top.last()) {
            w
        } else {
            w.push(top.last())
        }
    }
}


/// Whether some string of `v` reads `s`.
fn list_contains(v: &Vec<String>, s: &str) -> (r: bool)
    ensures
        r == texts(v@).contains(s@),
{
    let mut i: usize = 0;
    while i < v.len()
        invariant
            i <= v@.len(),
            forall|j: int| 0 <= j < i ==> texts(v@)[j] != s@,
        decreases v.len() - i,
    {
        if same_text(v[i].as_str(), s) {
            assert(texts(v@)[i as int] == s@);
            return true;
        }
        i = i + 1;
    }
    false
}

/// The round's watch list: `held` as it is, then the symbols of `top` in
/// their order, each unless it is already in the list.
pub fn watch_list(held: Vec<String>, top: Vec<String>) -> (w: Vec<String>)
    ensures
        texts(w@) == spec_watch_list(texts(held@), texts(top@)),
{
    let mut w: Vec<String> = held;
    let ghost h = texts(w@);
    let mut i: usize = 0;
    while i < top.len()
        invariant
            i <= top@.len(),
            texts(w@) == spec_watch_list(h, texts(top@).take(i as int)),
        decreases top.len() - i,
    {
        let ghost before = texts(w@);
        let coin: &String = &top[i];
        if !list_contains(&w, coin.as_str()) {
            w.push(coin.clone());
            assert(texts(w@) =~= before.push(coin@));
        }
        proof {
            let t = texts(top@).take(i + 1);
            assert(t.drop_last() =~= texts(top@).take(i as int));
            assert(t.last() == coin@);
        }
        i = i + 1;
    }
    assert(texts(top@).take(i as int) =~= texts(top@));
    w
}

/// Law: the watch list starts with the held symbols, lists every top
/// symbol, holds nothing else, and repeats no symbol when the held symbols
/// repeat none.
pub proof fn law_watch_list(held: Seq<Seq<char>>, top: Seq<Seq<char>>)
    ensures
        spec_watch_list(held, top).take(held.len() as int) == held,
        held.len() <= spec_watch_list(held, top).len(),
        forall|i: int| 0 <= i < top.len() ==> spec_watch_list(held, top).contains(#[trigger] top[i]),
        forall|x: Seq<char>| #[trigger] spec_watch_list(held, top).contains(x)
            ==> held.contains(x) || top.contains(x),
        held.no_duplicates() ==> spec_watch_list(held, top).no_duplicates(),
    decreases top.len(),
{
    if top.len() == 0 {
        assert(held.take(held.len() as int) =~= held);
    } else {
        let t = top.drop_last();
        law_watch_list(held, t);
        let w = spec_watch_list(held, t);
        if !w.contains(top.last()) {
            assert(w.push(top.last()).take(held.len() as int) =~= w.take(held.len() as int));
        }
        assert forall|i: int| 0 <= i < top.len() implies spec_watch_list(held, top).contains(#[trigger] top[i]) by {
            if i < top.len() - 1 {
                assert(t[i] == top[i]);
                assert(w.contains(t[i]));
                if !w.contains(top.last()) {
                    let j = w.index_of(t[i]);
                    assert(w.push(top.last())[j] == t[i]);
                }
            } else if !w.contains(top.last()) {
                assert(w.push(top.last())[w.len() as int] == top.last());
            }
        }
        assert forall|x: Seq<char>| #[trigger] spec_watch_list(held, top).contains(x)
            implies held.contains(x) || top.contains(x) by {
            if w.contains(x) {
                if t.contains(x) {
                    let j = t.index_of(x);
                    assert(top[j] == t[j]);
                }
            } else {
                assert(x == top.last());
                assert(top[top.len() - 1] == x);
            }
        }
    }
}

/// Law: a buy that `buy_permitted` allows leaves at most `MAX_POSITIONS`
/// positions open.
pub proof fn law_position_limit<V>(
    holdings: Map<Seq<char>, V>,
    symbol: Seq<char>,
    qty: V,
    action: Seq<char>,
    holding: bool,
    funds_ok: bool,
)
    requires
        holdings.dom().finite(),
        spec_buy_permitted(action, holding, holdings.dom().len(), funds_ok),
    ensures
        holdings.insert(symbol, qty).dom().len() <= MAX_POSITIONS,
{
    if holdings.dom().contains(symbol) {
        assert(holdings.insert(symbol, qty).dom() =~= holdings.dom());
    } else {
        assert(holdings.insert(symbol, qty).dom() =~= holdings.dom().insert(symbol));
    }
}

/// Law: closing a position right after opening it gives back the quantity
/// bought and leaves the book as it was, less any earlier position on the
/// symbol.
pub proof fn law_open_then_close<V>(
    holdings: Map<Seq<char>, V>,
    entry_prices: Map<Seq<char>, V>,
    highest_prices: Map<Seq<char>, V>,
    symbol: Seq<char>,
    qty: V,
    price: V,
)
    ensures
        holdings.insert(symbol, qty).dom().contains(symbol),
        holdings.insert(symbol, qty)[symbol] == qty,
        holdings.insert(symbol, qty).remove(symbol) == holdings.remove(symbol),
        entry_prices.insert(symbol, price).remove(symbol) == entry_prices.remove(symbol),
        highest_prices.insert(symbol, price).remove(symbol) == highest_prices.remove(symbol),
{
    assert(holdings.insert(symbol, qty).remove(symbol) =~= holdings.remove(symbol));
    assert(entry_prices.insert(symbol, price).remove(symbol) =~= entry_prices.remove(symbol));
    assert(highest_prices.insert(symbol, price).remove(symbol) =~= highest_prices.remove(symbol));
}

/// Law (sentiment gate): while the Fear & Greed score is below
/// `MIN_FNG_FOR_NEW_POSITION`, the engine does not ask the AI about a
/// symbol it does not hold, so it opens no new position; a held symbol is
/// still put to the AI when the analyzer flags it.
pub proof fn law_fear_blocks_new_positions(fng_score: i32, suggest_ask: bool)
    ensures
        fng_score < MIN_FNG_FOR_NEW_POSITION ==> !spec_should_consult_ai(false, fng_score, suggest_ask),
        spec_should_consult_ai(true, fng_score, suggest_ask) == suggest_ask,
{
}

/// Law (sentiment gate): a symbol the engine does not hold is put to the AI
/// exactly when the Fear & Greed score is at least 20, whatever the
/// analyzer's flag says.
pub proof fn law_new_symbol_consulted_by_score_alone(fng_score: i32, suggest_ask: bool)
    ensures
        spec_should_consult_ai(false, fng_score, suggest_ask) == (fng_score >= 20),
        MIN_FNG_FOR_NEW_POSITION == 20,
{
}

/// Law (buy gate): a symbol already held is never bought again, whatever
/// the AI's action, the number of open positions and the funds.
pub proof fn law_held_symbol_never_bought(action: Seq<char>, open_positions: nat, funds_ok: bool)
    ensures
        !spec_buy_permitted(action, true, open_positions, funds_ok),
{
}

/// Law (buy gate): for a symbol not held, with the funds to pay, the engine
/// buys exactly when the AI says `"BUY"` and fewer than 6 positions are
/// open; without the funds it never buys.
pub proof fn law_buy_on_ai_buy_with_room(action: Seq<char>, open_positions: nat, funds_ok: bool)
    ensures
        spec_buy_permitted(action, false, open_positions, true) == (action == "BUY"@ && open_positions < 6),
        !spec_buy_permitted(action, false, open_positions, false),
{
    reveal_strlit("BUY");
    assert("BUY"@ =~= buy_action());
}

} // verus!

use vstd::prelude::*;

use crate::domain::market::MarketTick;

verus! {

/// No two ticks of `ticks` are for the same symbol.
pub open spec fn symbols_unique(ticks: Seq<MarketTick>) -> bool {
    forall|i: int, j: int|
        0 <= i < ticks.len() && 0 <= j < ticks.len() && i != j ==> #[trigger] ticks[i].symbol@ != #[trigger] ticks[j].symbol@
}

/// Some tick of `ticks` is for symbol `s`.
pub open spec fn has_tick(ticks: Seq<MarketTick>, s: Seq<char>) -> bool {
    exists|i: int| 0 <= i < ticks.len() && (#[trigger] ticks[i]).symbol@ == s
}

/// The position of a tick of `ticks` for symbol `s`.
pub open spec fn tick_index(ticks: Seq<MarketTick>, s: Seq<char>) -> int {
    choose|i: int| 0 <= i < ticks.len() && (#[trigger] ticks[i]).symbol@ == s
}

/// The ticks by symbol.
pub open spec fn tick_view(ticks: Seq<MarketTick>) -> Map<Seq<char>, MarketTick> {
    Map::new(|s: Seq<char>| has_tick(ticks, s), |s: Seq<char>| ticks[tick_index(ticks, s)])
}

proof fn lemma_tick_at(ticks: Seq<MarketTick>, i: int)
    requires
        symbols_unique(ticks),
        0 <= i < ticks.len(),
    ensures
        has_tick(ticks, ticks[i].symbol@),
        tick_index(ticks, ticks[i].symbol@) == i,
        tick_view(ticks).contains_key(ticks[i].symbol@),
        tick_view(ticks)[ticks[i].symbol@] == ticks[i],
{
    let s = ticks[i].symbol@;
    assert(ticks[i].symbol@ == s);
    let k = tick_index(ticks, s);
    assert(0 <= k < ticks.len() && ticks[k].symbol@ == s);
}

proof fn lemma_view_set(ticks: Seq<MarketTick>, j: int, t: MarketTick)
    requires
        symbols_unique(ticks),
        0 <= j < ticks.len(),
        ticks[j].symbol@ == t.symbol@,
    ensures
        symbols_unique(ticks.update(j, t)),
        tick_view(ticks.update(j, t)) =~= tick_view(ticks).insert(t.symbol@, t),
{
    let u = ticks.update(j, t);
    assert forall|a: int, b: int| 0 <= a < u.len() && 0 <= b < u.len() && a != b implies #[trigger] u[a].symbol@ != #[trigger] u[b].symbol@ by {
        assert(u[a].symbol@ == ticks[a].symbol@);
        assert(u[b].symbol@ == ticks[b].symbol@);
    }
    lemma_tick_at(u, j);
    assert forall|s: Seq<char>| #[trigger] has_tick(u, s) == (has_tick(ticks, s) || s == t.symbol@) by {
        if has_tick(u, s) {
            let k = tick_index(u, s);
            assert(ticks[k].symbol@ == u[k].symbol@);
        }
        if has_tick(ticks, s) {
            let k = tick_index(ticks, s);
            assert(u[k].symbol@ == ticks[k].symbol@);
        }
    }
    assert forall|s: Seq<char>| has_tick(u, s) && s != t.symbol@ implies #[trigger] tick_view(u)[s] == tick_view(ticks)[s] by {
        let k = tick_index(u, s);
        assert(u[k].symbol@ == s);
        assert(k != j);
        assert(ticks[k] == u[k]);
        lemma_tick_at(ticks, k);
        lemma_tick_at(u, k);
    }
}

proof fn lemma_view_push(ticks: Seq<MarketTick>, t: MarketTick)
    requires
        symbols_unique(ticks),
        !has_tick(ticks, t.symbol@),
    ensures
        symbols_unique(ticks.push(t)),
        tick_view(ticks.push(t)) =~= tick_view(ticks).insert(t.symbol@, t),
{
    let u = ticks.push(t);
    let n = ticks.len() as int;
    assert forall|a: int, b: int| 0 <= a < u.len() && 0 <= b < u.len() && a != b implies #[trigger] u[a].symbol@ != #[trigger] u[b].symbol@ by {
        if a < n && b < n {
            assert(u[a] == ticks[a] && u[b] == ticks[b]);
        } else if a < n {
            assert(u[a] == ticks[a]);
            assert(ticks[a].symbol@ != t.symbol@);
        } else {
            assert(u[b] == ticks[b]);
            assert(ticks[b].symbol@ != t.symbol@);
        }
    }
    lemma_tick_at(u, n);
    assert forall|s: Seq<char>| #[trigger] has_tick(u, s) == (has_tick(ticks, s) || s == t.symbol@) by {
        if has_tick(u, s) {
            let k = tick_index(u, s);
            if k < n {
                assert(ticks[k] == u[k]);
            }
        }
        if has_tick(ticks, s) {
            let k = tick_index(ticks, s);
            assert(u[k] == ticks[k]);
        }
    }
    assert forall|s: Seq<char>| has_tick(u, s) && s != t.symbol@ implies #[trigger] tick_view(u)[s] == tick_view(ticks)[s] by {
        let k = tick_index(u, s);
        assert(u[k].symbol@ == s);
        assert(k < n);
        assert(ticks[k] == u[k]);
        lemma_tick_at(ticks, k);
        lemma_tick_at(u, k);
    }
}

/// Sets `tick` as the latest of its symbol in `ticks`.
fn record_in(ticks: &mut Vec<MarketTick>, tick: MarketTick)
    requires
        symbols_unique(old(ticks)@),
    ensures
        symbols_unique(final(ticks)@),
        tick_view(final(ticks)@) == tick_view(old(ticks)@).insert(tick.symbol@, tick),
{
    let n = ticks.len();
    let mut i: usize = 0;
    let mut found: Option<usize> = None;
    while i < n && found.is_none()
        invariant
            n == ticks@.len(),
            ticks@ == old(ticks)@,
            i <= n,
            forall|k: int| 0 <= k < i ==> (#[trigger] ticks@[k]).symbol@ != tick.symbol@,
            match found {
                Some(j) => j < n && ticks@[j as int].symbol@ == tick.symbol@,
                None => true,
            },
        decreases n - i + (if found is None { 1int } else { 0int }),
    {
        if ticks[i].symbol == tick.symbol {
            found = Some(i);
        } else {
            i = i + 1;
        }
    }
    match found {
        Some(j) => {
            proof {
                lemma_view_set(ticks@, j as int, tick);
            }
            ticks.set(j, tick);
        },
        None => {
            proof {
                assert(!has_tick(ticks@, tick.symbol@)) by {
                    if has_tick(ticks@, tick.symbol@) {
                        let k = tick_index(ticks@, tick.symbol@);
                        assert(ticks@[k].symbol@ == tick.symbol@);
                    }
                }
                lemma_view_push(ticks@, tick);
            }
            ticks.push(tick);
        },
    }
}

fn find_tick<'a>(ticks: &'a Vec<MarketTick>, symbol: &String) -> (r: Option<&'a MarketTick>)
    requires
        symbols_unique(ticks@),
    ensures
        match r {
            Some(t) => tick_view(ticks@).contains_key(symbol@) && *t == tick_view(ticks@)[symbol@],
            None => !tick_view(ticks@).contains_key(symbol@),
        },
{
    let n = ticks.len();
    let mut i: usize = 0;
    while i < n
        invariant
            n == ticks@.len(),
            symbols_unique(ticks@),
            i <= n,
            forall|k: int| 0 <= k < i ==> (#[trigger] ticks@[k]).symbol@ != symbol@,
        decreases n - i,
    {
        if ticks[i].symbol == *symbol {
            proof {
                lemma_tick_at(ticks@, i as int);
            }
            return Some(&ticks[i]);
        }
        i = i + 1;
    }
    proof {
        if has_tick(ticks@, symbol@) {
            let k = tick_index(ticks@, symbol@);
            assert(ticks@[k].symbol@ == symbol@);
        }
    }
    None
}

/// The latest tick of each symbol on each of two exchanges, as an arbitrage
/// engine that watches both keeps them.
#[derive(Debug)]
pub struct TickBoard {
    pub first_exchange: String,
    pub second_exchange: String,
    pub first: Vec<MarketTick>,
    pub second: Vec<MarketTick>,
}

impl TickBoard {
    /// Each exchange holds at most one tick per symbol.
    pub open spec fn wf(self) -> bool {
        symbols_unique(self.first@) && symbols_unique(self.second@)
    }

    /// The latest ticks of the first exchange, by symbol.
    pub open spec fn first_view(self) -> Map<Seq<char>, MarketTick> {
        tick_view(self.first@)
    }

    /// The latest ticks of the second exchange, by symbol.
    pub open spec fn second_view(self) -> Map<Seq<char>, MarketTick> {
        tick_view(self.second@)
    }

    /// A board for two exchanges with no tick yet.
    pub fn new(first_exchange: String, second_exchange: String) -> (b: Self)
        ensures
            b.wf(),
            b.first_exchange == first_exchange,
            b.second_exchange == second_exchange,
            b.first_view() == Map::<Seq<char>, MarketTick>::empty(),
            b.second_view() == Map::<Seq<char>, MarketTick>::empty(),
    {
        let b = TickBoard { first_exchange, second_exchange, first: Vec::new(), second: Vec::new() };
        assert(b.first_view() =~= Map::<Seq<char>, MarketTick>::empty());
        assert(b.second_view() =~= Map::<Seq<char>, MarketTick>::empty());
        b
    }

    /// Keeps `tick` as the latest of its symbol on its exchange; a tick from
    /// neither exchange is dropped.
    pub fn record(&mut self, tick: MarketTick)
        requires
            old(self).wf(),
        ensures
            final(self).wf(),
            final(self).first_exchange == old(self).first_exchange,
            final(self).second_exchange == old(self).second_exchange,
            tick.exchange_name@ == old(self).first_exchange@ ==> final(self).first_view() == old(self).first_view().insert(
                tick.symbol@,
                tick,
            ) && final(self).second_view() == old(self).second_view(),
            tick.exchange_name@ != old(self).first_exchange@ && tick.exchange_name@ == old(self).second_exchange@
                ==> final(self).second_view() == old(self).second_view().insert(tick.symbol@, tick)
                && final(self).first_view() == old(self).first_view(),
            tick.exchange_name@ != old(self).first_exchange@ && tick.exchange_name@ != old(self).second_exchange@
                ==> final(self).first_view() == old(self).first_view() && final(self).second_view()
                == old(self).second_view(),
    {
        if tick.exchange_name == self.first_exchange {
            record_in(&mut self.first, tick);
        } else if tick.exchange_name == self.second_exchange {
            record_in(&mut self.second, tick);
        }
    }

    /// The latest ticks of `symbol` on both exchanges, when both have one.
    pub fn pair(&self, symbol: &String) -> (r: Option<(&MarketTick, &MarketTick)>)
        requires
            self.wf(),
        ensures
            r is Some <==> (self.first_view().contains_key(symbol@) && self.second_view().contains_key(symbol@)),
            r matches Some((a, b)) ==> *a == self.first_view()[symbol@] && *b == self.second_view()[symbol@],
    {
        match (find_tick(&self.first, symbol), find_tick(&self.second, symbol)) {
            (Some(a), Some(b)) => Some((a, b)),
            _ => None,
        }
    }
}

} // verus!

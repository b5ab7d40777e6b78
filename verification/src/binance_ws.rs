//! The local order book kept from Binance depth data: a REST snapshot first,
//! then the incremental updates of the depth stream, with prices kept in
//! numeric order.
use vstd::prelude::*;
use crate::decimal::{amount_of, amount_or_zero};

verus! {

/// One incremental depth update of the stream (`<symbol>@depth`).
pub struct DepthUpdate {
    pub event_type: String,
    pub event_time: i64,
    pub symbol: String,
    pub first_update_id: i64,
    pub final_update_id: i64,
    /// `[price, quantity]` pairs.
    pub bids: Vec<Vec<String>>,
    /// `[price, quantity]` pairs.
    pub asks: Vec<Vec<String>>,
}

/// The REST depth snapshot.
#[allow(non_snake_case)]
pub struct DepthSnapshot {
    pub lastUpdateId: i64,
    pub bids: Vec<Vec<String>>,
    pub asks: Vec<Vec<String>>,
}

/// The state of the book that the trading logic reads.  Prices and volumes
/// are in units of 10^-8.
#[derive(Clone, Copy)]
pub struct OrderBook {
    pub best_bid: u64,
    pub best_ask: u64,
    pub bids_volume: u64,
    pub asks_volume: u64,
    pub last_update_time: i64,
    pub is_valid: bool,
    /// A slowly moving reference price used to reject abnormal quotes.
    pub reference_price: u64,
}

impl Default for OrderBook {
    fn default() -> (r: Self)
        ensures
            r.best_bid == 0,
            r.best_ask == 0,
            r.bids_volume == 0,
            r.asks_volume == 0,
            r.last_update_time == 0,
            !r.is_valid,
            r.reference_price == 0,
    {
        OrderBook {
            best_bid: 0,
            best_ask: 0,
            bids_volume: 0,
            asks_volume: 0,
            last_update_time: 0,
            is_valid: false,
            reference_price: 0,
        }
    }
}

/// One price level of the book.
#[derive(Clone, Copy)]
pub struct PriceLevel {
    pub price: u64,
    pub quantity: u64,
}

/// Prices strictly fall along the sequence (bids, best first).
pub open spec fn descending(s: Seq<PriceLevel>) -> bool {
    forall|i: int, j: int| 0 <= i < j < s.len() ==> s[i].price > s[j].price
}

/// Prices strictly rise along the sequence (asks, best first).
pub open spec fn ascending(s: Seq<PriceLevel>) -> bool {
    forall|i: int, j: int| 0 <= i < j < s.len() ==> s[i].price < s[j].price
}

pub open spec fn positive_quantities(s: Seq<PriceLevel>) -> bool {
    forall|i: int| 0 <= i < s.len() ==> (#[trigger] s[i]).quantity > 0
}

/// The levels of `s` at any price other than `p`, in order.
pub open spec fn without_price(s: Seq<PriceLevel>, p: u64) -> Seq<PriceLevel>
    decreases s.len(),
{
    if s.len() == 0 {
        s
    } else {
        let rest = without_price(s.drop_last(), p);
        if s.last().price == p {
            rest
        } else {
            rest.push(s.last())
        }
    }
}

/// How many leading levels of `s` have a price above `p`.
pub open spec fn count_above(s: Seq<PriceLevel>, p: u64) -> nat
    decreases s.len(),
{
    if s.len() == 0 {
        0
    } else if s[0].price > p {
        1 + count_above(s.drop_first(), p)
    } else {
        0
    }
}

/// How many leading levels of `s` have a price below `p`.
pub open spec fn count_below(s: Seq<PriceLevel>, p: u64) -> nat
    decreases s.len(),
{
    if s.len() == 0 {
        0
    } else if s[0].price < p {
        1 + count_below(s.drop_first(), p)
    } else {
        0
    }
}

/// The bids after the level at `p` is set to `q`: the old level at `p` goes,
/// and a level `(p, q)` is put in price order when `q > 0`.
pub open spec fn bids_after(s: Seq<PriceLevel>, p: u64, q: u64) -> Seq<PriceLevel> {
    let f = without_price(s, p);
    if q > 0 {
        f.insert(count_above(f, p) as int, PriceLevel { price: p, quantity: q })
    } else {
        f
    }
}

/// The asks after the level at `p` is set to `q`.
pub open spec fn asks_after(s: Seq<PriceLevel>, p: u64, q: u64) -> Seq<PriceLevel> {
    let f = without_price(s, p);
    if q > 0 {
        f.insert(count_below(f, p) as int, PriceLevel { price: p, quantity: q })
    } else {
        f
    }
}

/// The sum of the quantities of `s`.
pub open spec fn quantity_total(s: Seq<PriceLevel>) -> int
    decreases s.len(),
{
    if s.len() == 0 {
        0
    } else {
        quantity_total(s.drop_last()) + s.last().quantity
    }
}

/// The volume of the first `n` levels, held at `u64::MAX` at most.
pub open spec fn top_volume(s: Seq<PriceLevel>, n: int) -> u64 {
    let k = if n < s.len() { n } else { s.len() as int };
    let t = quantity_total(s.take(k));
    if t < u64::MAX as int {
        t as u64
    } else {
        u64::MAX
    }
}

/// The book of all price levels, bids highest first and asks lowest first.
pub struct InternalOrderBook {
    bids: Vec<PriceLevel>,
    asks: Vec<PriceLevel>,
    last_update_id: i64,
}

proof fn lemma_without_price_step(s: Seq<PriceLevel>, p: u64, i: int)
    requires
        0 <= i < s.len(),
    ensures
        without_price(s.take(i + 1), p) == (if s[i].price == p {
            without_price(s.take(i), p)
        } else {
            without_price(s.take(i), p).push(s[i])
        }),
{
    assert(s.take(i + 1).drop_last() =~= s.take(i));
}

/// Every level kept is a level of `s` at another price, and the order of
/// `s` is kept.
proof fn lemma_without_price_props(s: Seq<PriceLevel>, p: u64)
    ensures
        forall|k: int|
            0 <= k < without_price(s, p).len() ==> (#[trigger] without_price(s, p)[k]).price != p
                && s.contains(without_price(s, p)[k]),
        descending(s) ==> descending(without_price(s, p)),
        ascending(s) ==> ascending(without_price(s, p)),
        positive_quantities(s) ==> positive_quantities(without_price(s, p)),
        without_price(s, p).len() <= s.len(),
    decreases s.len(),
{
    if s.len() > 0 {
        let d = s.drop_last();
        lemma_without_price_props(d, p);
        let r = without_price(d, p);
        let w = without_price(s, p);
        assert forall|k: int| 0 <= k < w.len() implies (#[trigger] w[k]).price != p && s.contains(
            w[k],
        ) by {
            if k < r.len() {
                assert(w[k] == r[k]);
                assert(d.contains(r[k]));
                let j = choose|j: int| 0 <= j < d.len() && d[j] == r[k];
                assert(s[j] == d[j]);
            } else {
                assert(s[s.len() - 1] == w[k]);
            }
        }
        if descending(s) {
            assert(descending(d));
            assert forall|a: int, b: int| 0 <= a < b < w.len() implies w[a].price > w[b].price by {
                if b >= r.len() {
                    assert(w[a] == r[a]);
                    assert(d.contains(r[a]));
                    let j = choose|j: int| 0 <= j < d.len() && d[j] == r[a];
                    assert(s[j] == d[j]);
                } else {
                    assert(w[a] == r[a]);
                    assert(w[b] == r[b]);
                }
            }
        }
        if ascending(s) {
            assert(ascending(d));
            assert forall|a: int, b: int| 0 <= a < b < w.len() implies w[a].price < w[b].price by {
                if b >= r.len() {
                    assert(w[a] == r[a]);
                    assert(d.contains(r[a]));
                    let j = choose|j: int| 0 <= j < d.len() && d[j] == r[a];
                    assert(s[j] == d[j]);
                } else {
                    assert(w[a] == r[a]);
                    assert(w[b] == r[b]);
                }
            }
        }
        if positive_quantities(s) {
            assert(positive_quantities(d));
            assert forall|k: int| 0 <= k < w.len() implies (#[trigger] w[k]).quantity > 0 by {
                if k < r.len() {
                    assert(w[k] == r[k]);
                    assert(d.contains(r[k]));
                    let j = choose|j: int| 0 <= j < d.len() && d[j] == r[k];
                    assert(s[j] == d[j]);
                }
            }
        }
    }
}

proof fn lemma_count_above_skip(s: Seq<PriceLevel>, p: u64, k: int)
    requires
        0 <= k < s.len(),
        s[k].price > p,
    ensures
        count_above(s.skip(k), p) == 1 + count_above(s.skip(k + 1), p),
{
    assert(s.skip(k).drop_first() =~= s.skip(k + 1));
}

proof fn lemma_count_below_skip(s: Seq<PriceLevel>, p: u64, k: int)
    requires
        0 <= k < s.len(),
        s[k].price < p,
    ensures
        count_below(s.skip(k), p) == 1 + count_below(s.skip(k + 1), p),
{
    assert(s.skip(k).drop_first() =~= s.skip(k + 1));
}

proof fn lemma_total_take_step(s: Seq<PriceLevel>, k: int)
    requires
        0 <= k < s.len(),
    ensures
        quantity_total(s.take(k + 1)) == quantity_total(s.take(k)) + s[k].quantity,
{
    assert(s.take(k + 1).drop_last() =~= s.take(k));
}

proof fn lemma_total_nonneg(s: Seq<PriceLevel>)
    ensures
        quantity_total(s) >= 0,
    decreases s.len(),
{
    if s.len() > 0 {
        lemma_total_nonneg(s.drop_last());
    }
}

proof fn lemma_count_above_bounds(s: Seq<PriceLevel>, p: u64)
    ensures
        count_above(s, p) <= s.len(),
        forall|i: int| 0 <= i < count_above(s, p) ==> (#[trigger] s[i]).price > p,
        count_above(s, p) < s.len() ==> s[count_above(s, p) as int].price <= p,
    decreases s.len(),
{
    if s.len() > 0 {
        let t = s.drop_first();
        lemma_count_above_bounds(t, p);
        if s[0].price > p {
            assert forall|i: int| 0 <= i < count_above(s, p) implies (#[trigger] s[i]).price > p by {
                if i > 0 {
                    assert(s[i] == t[i - 1]);
                }
            }
            if count_above(s, p) < s.len() {
                assert(s[count_above(s, p) as int] == t[count_above(t, p) as int]);
            }
        }
    }
}

proof fn lemma_count_below_bounds(s: Seq<PriceLevel>, p: u64)
    ensures
        count_below(s, p) <= s.len(),
        forall|i: int| 0 <= i < count_below(s, p) ==> (#[trigger] s[i]).price < p,
        count_below(s, p) < s.len() ==> s[count_below(s, p) as int].price >= p,
    decreases s.len(),
{
    if s.len() > 0 {
        let t = s.drop_first();
        lemma_count_below_bounds(t, p);
        if s[0].price < p {
            assert forall|i: int| 0 <= i < count_below(s, p) implies (#[trigger] s[i]).price < p by {
                if i > 0 {
                    assert(s[i] == t[i - 1]);
                }
            }
            if count_below(s, p) < s.len() {
                assert(s[count_below(s, p) as int] == t[count_below(t, p) as int]);
            }
        }
    }
}

/// A level is kept by `without_price` exactly when it is a level of `s` at
/// another price.
proof fn lemma_without_price_contains(s: Seq<PriceLevel>, p: u64)
    ensures
        forall|l: PriceLevel| #[trigger] without_price(s, p).contains(l) <==> (s.contains(l) && l.price != p),
    decreases s.len(),
{
    lemma_without_price_props(s, p);
    if s.len() > 0 {
        let d = s.drop_last();
        lemma_without_price_contains(d, p);
        let w = without_price(s, p);
        let r = without_price(d, p);
        assert forall|l: PriceLevel| #[trigger] w.contains(l) <==> (s.contains(l) && l.price != p) by {
            if w.contains(l) {
                let k = choose|k: int| 0 <= k < w.len() && w[k] == l;
                assert(w[k].price != p && s.contains(w[k]));
            }
            if s.contains(l) && l.price != p {
                let j = choose|j: int| 0 <= j < s.len() && s[j] == l;
                if j < s.len() - 1 {
                    assert(d[j] == l);
                    assert(d.contains(l));
                    assert(r.contains(l));
                    let k = choose|k: int| 0 <= k < r.len() && r[k] == l;
                    if s.last().price != p {
                        assert(w[k] == l);
                    }
                } else {
                    assert(w[w.len() - 1] == l);
                }
            }
        }
    }
}

proof fn lemma_insert_contains(f: Seq<PriceLevel>, k: int, x: PriceLevel)
    requires
        0 <= k <= f.len(),
    ensures
        forall|l: PriceLevel| #[trigger] f.insert(k, x).contains(l) <==> (f.contains(l) || l == x),
{
    let g = f.insert(k, x);
    assert forall|l: PriceLevel| #[trigger] g.contains(l) <==> (f.contains(l) || l == x) by {
        if g.contains(l) {
            let i = choose|i: int| 0 <= i < g.len() && g[i] == l;
            if i < k {
                assert(f[i] == l);
            } else if i > k {
                assert(f[i - 1] == l);
            }
        }
        if f.contains(l) {
            let i = choose|i: int| 0 <= i < f.len() && f[i] == l;
            if i < k {
                assert(g[i] == l);
            } else {
                assert(g[i + 1] == l);
            }
        }
        if l == x {
            assert(g[k] == l);
        }
    }
}

/// Putting a level into the bids keeps them in falling price order with
/// positive quantities.
proof fn lemma_bids_after_wf(s: Seq<PriceLevel>, p: u64, q: u64)
    requires
        descending(s),
        positive_quantities(s),
    ensures
        descending(bids_after(s, p, q)),
        positive_quantities(bids_after(s, p, q)),
{
    lemma_without_price_props(s, p);
    let f = without_price(s, p);
    if q > 0 {
        lemma_count_above_bounds(f, p);
        let k = count_above(f, p) as int;
        let g = f.insert(k, PriceLevel { price: p, quantity: q });
        assert forall|a: int, b: int| 0 <= a < b < g.len() implies g[a].price > g[b].price by {
            if b < k {
            } else if b == k {
            } else if a < k {
                assert(f[b - 1].price != p);
                if a != b - 1 {
                    assert(f[a].price > f[b - 1].price);
                }
                assert(f[k].price != p);
                if b - 1 > k {
                    assert(f[k].price > f[b - 1].price);
                }
            } else if a == k {
                assert(f[k].price != p);
                if b - 1 > k {
                    assert(f[k].price > f[b - 1].price);
                }
            } else {
                assert(f[a - 1].price > f[b - 1].price);
            }
        }
        assert forall|i: int| 0 <= i < g.len() implies (#[trigger] g[i]).quantity > 0 by {
            if i < k {
                assert(g[i] == f[i]);
            } else if i > k {
                assert(g[i] == f[i - 1]);
            }
        }
    }
}

/// Putting a level into the asks keeps them in rising price order with
/// positive quantities.
proof fn lemma_asks_after_wf(s: Seq<PriceLevel>, p: u64, q: u64)
    requires
        ascending(s),
        positive_quantities(s),
    ensures
        ascending(asks_after(s, p, q)),
        positive_quantities(asks_after(s, p, q)),
{
    lemma_without_price_props(s, p);
    let f = without_price(s, p);
    if q > 0 {
        lemma_count_below_bounds(f, p);
        let k = count_below(f, p) as int;
        let g = f.insert(k, PriceLevel { price: p, quantity: q });
        assert forall|a: int, b: int| 0 <= a < b < g.len() implies g[a].price < g[b].price by {
            if b < k {
            } else if b == k {
            } else if a < k {
                assert(f[b - 1].price != p);
                if a != b - 1 {
                    assert(f[a].price < f[b - 1].price);
                }
                assert(f[k].price != p);
                if b - 1 > k {
                    assert(f[k].price < f[b - 1].price);
                }
            } else if a == k {
                assert(f[k].price != p);
                if b - 1 > k {
                    assert(f[k].price < f[b - 1].price);
                }
            } else {
                assert(f[a - 1].price < f[b - 1].price);
            }
        }
        assert forall|i: int| 0 <= i < g.len() implies (#[trigger] g[i]).quantity > 0 by {
            if i < k {
                assert(g[i] == f[i]);
            } else if i > k {
                assert(g[i] == f[i - 1]);
            }
        }
    }
}

/// Two sides in strict price order that hold the same levels are equal;
/// `falling` picks the order (bids) or its reverse (asks).
proof fn lemma_ordered_same_levels(a: Seq<PriceLevel>, b: Seq<PriceLevel>, falling: bool)
    requires
        falling ==> descending(a) && descending(b),
        !falling ==> ascending(a) && ascending(b),
        forall|l: PriceLevel| a.contains(l) <==> b.contains(l),
    ensures
        a == b,
    decreases a.len(),
{
    if a.len() == 0 {
        if b.len() > 0 {
            assert(b.contains(b[0]));
        }
        assert(a =~= b);
    } else {
        assert(a.contains(a[0]));
        let j = choose|j: int| 0 <= j < b.len() && b[j] == a[0];
        assert(b.contains(b[0]));
        let i = choose|i: int| 0 <= i < a.len() && a[i] == b[0];
        if j > 0 {
            if i > 0 {
                if falling {
                    assert(b[0].price > b[j].price);
                    assert(a[0].price > a[i].price);
                } else {
                    assert(b[0].price < b[j].price);
                    assert(a[0].price < a[i].price);
                }
            }
            assert(false);
        }
        let a1 = a.drop_first();
        let b1 = b.drop_first();
        assert forall|l: PriceLevel| a1.contains(l) <==> b1.contains(l) by {
            if a1.contains(l) {
                let m = choose|m: int| 0 <= m < a1.len() && a1[m] == l;
                assert(a[m + 1] == l);
                assert(a.contains(l));
                let n = choose|n: int| 0 <= n < b.len() && b[n] == l;
                if n == 0 {
                    if falling {
                        assert(a[0].price > a[m + 1].price);
                    } else {
                        assert(a[0].price < a[m + 1].price);
                    }
                }
                assert(b1[n - 1] == l);
            }
            if b1.contains(l) {
                let m = choose|m: int| 0 <= m < b1.len() && b1[m] == l;
                assert(b[m + 1] == l);
                assert(b.contains(l));
                let n = choose|n: int| 0 <= n < a.len() && a[n] == l;
                if n == 0 {
                    if falling {
                        assert(b[0].price > b[m + 1].price);
                    } else {
                        assert(b[0].price < b[m + 1].price);
                    }
                }
                assert(a1[n - 1] == l);
            }
        }
        lemma_ordered_same_levels(a1, b1, falling);
        assert(b[0] == a[0]);
        assert(a.len() == b.len());
        assert forall|k: int| 0 <= k < a.len() implies a[k] == b[k] by {
            if k > 0 {
                assert(a[k] == a1[k - 1]);
                assert(b[k] == b1[k - 1]);
            }
        }
        assert(a =~= b);
    }
}

/// Reading a bid level back after it is set: after the level at `p` is set
/// to `q`, the bids hold a level at `p` exactly when `q > 0`, and then it
/// is `(p, q)`; a level at any other price is held exactly when it was held
/// before.
pub proof fn lemma_bid_update_read(s: Seq<PriceLevel>, p: u64, q: u64)
    ensures
        forall|l: PriceLevel|
            l.price != p ==> (#[trigger] bids_after(s, p, q).contains(l) <==> s.contains(l)),
        forall|l: PriceLevel|
            l.price == p ==> (#[trigger] bids_after(s, p, q).contains(l) <==> (q > 0 && l.quantity == q)),
{
    lemma_without_price_contains(s, p);
    let f = without_price(s, p);
    if q > 0 {
        lemma_without_price_props(s, p);
        lemma_count_above_bounds(f, p);
        lemma_insert_contains(f, count_above(f, p) as int, PriceLevel { price: p, quantity: q });
    }
}

/// Reading an ask level back after it is set (as for bids).
pub proof fn lemma_ask_update_read(s: Seq<PriceLevel>, p: u64, q: u64)
    ensures
        forall|l: PriceLevel|
            l.price != p ==> (#[trigger] asks_after(s, p, q).contains(l) <==> s.contains(l)),
        forall|l: PriceLevel|
            l.price == p ==> (#[trigger] asks_after(s, p, q).contains(l) <==> (q > 0 && l.quantity == q)),
{
    lemma_without_price_contains(s, p);
    let f = without_price(s, p);
    if q > 0 {
        lemma_without_price_props(s, p);
        lemma_count_below_bounds(f, p);
        lemma_insert_contains(f, count_below(f, p) as int, PriceLevel { price: p, quantity: q });
    }
}

/// The last update of a bid level wins: setting the level at `p` to `q1`
/// and then to `q2` gives the book that setting it to `q2` alone gives; in
/// particular applying the same update twice changes nothing more.
pub proof fn lemma_bid_update_last_wins(s: Seq<PriceLevel>, p: u64, q1: u64, q2: u64)
    requires
        descending(s),
        positive_quantities(s),
    ensures
        bids_after(bids_after(s, p, q1), p, q2) == bids_after(s, p, q2),
{
    let a = bids_after(s, p, q1);
    lemma_bids_after_wf(s, p, q1);
    lemma_bids_after_wf(a, p, q2);
    lemma_bids_after_wf(s, p, q2);
    lemma_bid_update_read(s, p, q1);
    lemma_bid_update_read(a, p, q2);
    lemma_bid_update_read(s, p, q2);
    let x = bids_after(a, p, q2);
    let y = bids_after(s, p, q2);
    assert forall|l: PriceLevel| x.contains(l) <==> y.contains(l) by {
        if l.price != p {
            assert(x.contains(l) <==> a.contains(l));
            assert(a.contains(l) <==> s.contains(l));
        }
    }
    lemma_ordered_same_levels(x, y, true);
}

/// The last update of an ask level wins (as for bids).
pub proof fn lemma_ask_update_last_wins(s: Seq<PriceLevel>, p: u64, q1: u64, q2: u64)
    requires
        ascending(s),
        positive_quantities(s),
    ensures
        asks_after(asks_after(s, p, q1), p, q2) == asks_after(s, p, q2),
{
    let a = asks_after(s, p, q1);
    lemma_asks_after_wf(s, p, q1);
    lemma_asks_after_wf(a, p, q2);
    lemma_asks_after_wf(s, p, q2);
    lemma_ask_update_read(s, p, q1);
    lemma_ask_update_read(a, p, q2);
    lemma_ask_update_read(s, p, q2);
    let x = asks_after(a, p, q2);
    let y = asks_after(s, p, q2);
    assert forall|l: PriceLevel| x.contains(l) <==> y.contains(l) by {
        if l.price != p {
            assert(x.contains(l) <==> a.contains(l));
            assert(a.contains(l) <==> s.contains(l));
        }
    }
    lemma_ordered_same_levels(x, y, false);
}

/// A public book marked valid holds a bid above 0 and below the ask, with a
/// spread under 0.5% of the bid.
pub proof fn lemma_valid_book_quote(ob: OrderBook, bid: u64, ask: u64, bv: u64, av: u64, time: i64)
    ensures
        book_after_quote(ob, bid, ask, bv, av, time).is_valid ==> ({
            let b = book_after_quote(ob, bid, ask, bv, av, time);
            &&& 0 < b.best_bid < b.best_ask
            &&& (b.best_ask - b.best_bid) * 200 < b.best_bid
        }),
        !book_after_quote(ob, bid, ask, bv, av, time).is_valid ==> book_after_quote(ob, bid, ask, bv, av, time)
            == (OrderBook { is_valid: false, ..ob }),
{
}

impl InternalOrderBook {
    pub closed spec fn bids_view(&self) -> Seq<PriceLevel> {
        self.bids@
    }

    pub closed spec fn asks_view(&self) -> Seq<PriceLevel> {
        self.asks@
    }

    pub closed spec fn update_id(&self) -> i64 {
        self.last_update_id
    }

    /// Bids fall and asks rise in price, and every level holds a quantity.
    pub open spec fn wf(&self) -> bool {
        &&& descending(self.bids_view())
        &&& positive_quantities(self.bids_view())
        &&& ascending(self.asks_view())
        &&& positive_quantities(self.asks_view())
    }

    pub fn new() -> (r: Self)
        ensures
            r.wf(),
            r.bids_view() == Seq::<PriceLevel>::empty(),
            r.asks_view() == Seq::<PriceLevel>::empty(),
            r.update_id() == 0,
    {
        InternalOrderBook { bids: Vec::new(), asks: Vec::new(), last_update_id: 0 }
    }

    /// The id of the last update applied.
    pub fn last_update_id(&self) -> (r: i64)
        ensures
            r == self.update_id(),
    {
        self.last_update_id
    }

    fn kept_levels(levels: &Vec<PriceLevel>, price: u64) -> (r: Vec<PriceLevel>)
        ensures
            r@ == without_price(levels@, price),
    {
        let mut kept: Vec<PriceLevel> = Vec::new();
        let n = levels.len();
        let mut i: usize = 0;
        while i < n
            invariant
                n == levels@.len(),
                i <= n,
                kept@ == without_price(levels@.take(i as int), price),
            decreases n - i,
        {
            proof {
                lemma_without_price_step(levels@, price, i as int);
            }
            let level = levels[i];
            if level.price != price {
                kept.push(level);
            }
            i = i + 1;
        }
        proof {
            assert(levels@.take(n as int) =~= levels@);
        }
        kept
    }

    /// Sets the bid level at `price` to `qty`; a zero quantity removes it.
    pub fn update_bid(&mut self, price: u64, qty: u64)
        requires
            old(self).wf(),
        ensures
            final(self).wf(),
            final(self).bids_view() == bids_after(old(self).bids_view(), price, qty),
            final(self).asks_view() == old(self).asks_view(),
            final(self).update_id() == old(self).update_id(),
    {
        let mut kept = Self::kept_levels(&self.bids, price);
        if qty > 0 {
            let n = kept.len();
            let mut k: usize = 0;
            assert(kept@.skip(0) =~= kept@);
            while k < n && kept[k].price > price
                invariant
                    n == kept@.len(),
                    k <= n,
                    count_above(kept@, price) == k + count_above(kept@.skip(k as int), price),
                decreases n - k,
            {
                proof {
                    lemma_count_above_skip(kept@, price, k as int);
                }
                k = k + 1;
            }
            proof {
                if k < n {
                    assert(kept@.skip(k as int)[0] == kept@[k as int]);
                }
                assert(count_above(kept@.skip(k as int), price) == 0);
            }
            let ghost f = kept@;
            kept.insert(k, PriceLevel { price, quantity: qty });
            proof {
                assert(kept@ == f.insert(k as int, PriceLevel { price, quantity: qty }));
            }
        }
        proof {
            lemma_bids_after_wf(old(self).bids@, price, qty);
        }
        self.bids = kept;
    }

    /// Sets the ask level at `price` to `qty`; a zero quantity removes it.
    pub fn update_ask(&mut self, price: u64, qty: u64)
        requires
            old(self).wf(),
        ensures
            final(self).wf(),
            final(self).asks_view() == asks_after(old(self).asks_view(), price, qty),
            final(self).bids_view() == old(self).bids_view(),
            final(self).update_id() == old(self).update_id(),
    {
        let mut kept = Self::kept_levels(&self.asks, price);
        if qty > 0 {
            let n = kept.len();
            let mut k: usize = 0;
            assert(kept@.skip(0) =~= kept@);
            while k < n && kept[k].price < price
                invariant
                    n == kept@.len(),
                    k <= n,
                    count_below(kept@, price) == k + count_below(kept@.skip(k as int), price),
                decreases n - k,
            {
                proof {
                    lemma_count_below_skip(kept@, price, k as int);
                }
                k = k + 1;
            }
            proof {
                if k < n {
                    assert(kept@.skip(k as int)[0] == kept@[k as int]);
                }
                assert(count_below(kept@.skip(k as int), price) == 0);
            }
            let ghost f = kept@;
            kept.insert(k, PriceLevel { price, quantity: qty });
            proof {
                assert(kept@ == f.insert(k as int, PriceLevel { price, quantity: qty }));
            }
        }
        proof {
            lemma_asks_after_wf(old(self).asks@, price, qty);
        }
        self.asks = kept;
    }

    /// The best (highest) bid price.
    pub fn best_bid(&self) -> (r: Option<u64>)
        ensures
            r == (if self.bids_view().len() > 0 {
                Some(self.bids_view()[0].price)
            } else {
                None::<u64>
            }),
    {
        if self.bids.len() > 0 {
            Some(self.bids[0].price)
        } else {
            None
        }
    }

    /// The best (lowest) ask price.
    pub fn best_ask(&self) -> (r: Option<u64>)
        ensures
            r == (if self.asks_view().len() > 0 {
                Some(self.asks_view()[0].price)
            } else {
                None::<u64>
            }),
    {
        if self.asks.len() > 0 {
            Some(self.asks[0].price)
        } else {
            None
        }
    }

    fn top_volume_of(levels: &Vec<PriceLevel>, n: usize) -> (r: u64)
        ensures
            r == top_volume(levels@, n as int),
    {
        let len = levels.len();
        let k = if n < len {
            n
        } else {
            len
        };
        let mut total: u64 = 0;
        let mut i: usize = 0;
        while i < k
            invariant
                k <= len,
                len == levels@.len(),
                i <= k,
                total as int == (if quantity_total(levels@.take(i as int)) < u64::MAX as int {
                    quantity_total(levels@.take(i as int))
                } else {
                    u64::MAX as int
                }),
            decreases k - i,
        {
            proof {
                lemma_total_take_step(levels@, i as int);
                lemma_total_nonneg(levels@.take(i as int));
            }
            total = total.saturating_add(levels[i].quantity);
            i = i + 1;
        }
        total
    }

    /// The total quantity of the best `n` bid levels.
    pub fn top_bids_volume(&self, n: usize) -> (r: u64)
        ensures
            r == top_volume(self.bids_view(), n as int),
    {
        Self::top_volume_of(&self.bids, n)
    }

    /// The total quantity of the best `n` ask levels.
    pub fn top_asks_volume(&self, n: usize) -> (r: u64)
        ensures
            r == top_volume(self.asks_view(), n as int),
    {
        Self::top_volume_of(&self.asks, n)
    }

    /// The number of bid and ask levels.
    pub fn level_counts(&self) -> (r: (usize, usize))
        ensures
            r.0 == self.bids_view().len(),
            r.1 == self.asks_view().len(),
    {
        (self.bids.len(), self.asks.len())
    }
}

/// The bids after the `[price, quantity]` entries of an update are applied
/// in order; entries with fewer than two fields are skipped, and a field
/// that is no non-negative number reads as 0.
pub open spec fn bids_after_entries(s: Seq<PriceLevel>, entries: Seq<Vec<String>>) -> Seq<PriceLevel>
    decreases entries.len(),
{
    if entries.len() == 0 {
        s
    } else {
        let prev = bids_after_entries(s, entries.drop_last());
        let e = entries.last();
        if e@.len() >= 2 {
            bids_after(prev, amount_or_zero(e@[0]@) as u64, amount_or_zero(e@[1]@) as u64)
        } else {
            prev
        }
    }
}

/// The asks after the entries of an update are applied in order.
pub open spec fn asks_after_entries(s: Seq<PriceLevel>, entries: Seq<Vec<String>>) -> Seq<PriceLevel>
    decreases entries.len(),
{
    if entries.len() == 0 {
        s
    } else {
        let prev = asks_after_entries(s, entries.drop_last());
        let e = entries.last();
        if e@.len() >= 2 {
            asks_after(prev, amount_or_zero(e@[0]@) as u64, amount_or_zero(e@[1]@) as u64)
        } else {
            prev
        }
    }
}

/// A snapshot entry is taken when both its price and quantity are positive.
pub open spec fn snapshot_entry_taken(e: Vec<String>) -> bool {
    e@.len() >= 2 && amount_or_zero(e@[0]@) > 0 && amount_or_zero(e@[1]@) > 0
}

/// The bids after the entries of a snapshot are loaded in order.
pub open spec fn bids_after_snapshot(s: Seq<PriceLevel>, entries: Seq<Vec<String>>) -> Seq<PriceLevel>
    decreases entries.len(),
{
    if entries.len() == 0 {
        s
    } else {
        let prev = bids_after_snapshot(s, entries.drop_last());
        let e = entries.last();
        if snapshot_entry_taken(e) {
            bids_after(prev, amount_or_zero(e@[0]@) as u64, amount_or_zero(e@[1]@) as u64)
        } else {
            prev
        }
    }
}

/// The asks after the entries of a snapshot are loaded in order.
pub open spec fn asks_after_snapshot(s: Seq<PriceLevel>, entries: Seq<Vec<String>>) -> Seq<PriceLevel>
    decreases entries.len(),
{
    if entries.len() == 0 {
        s
    } else {
        let prev = asks_after_snapshot(s, entries.drop_last());
        let e = entries.last();
        if snapshot_entry_taken(e) {
            asks_after(prev, amount_or_zero(e@[0]@) as u64, amount_or_zero(e@[1]@) as u64)
        } else {
            prev
        }
    }
}

pub open spec fn abs_diff(a: int, b: int) -> int {
    if a >= b {
        a - b
    } else {
        b - a
    }
}

/// A quote is accepted when bid and ask are both present and the ask is above
/// the bid, the spread is below 0.5% of the bid, and, once a reference price
/// exists, the mid price lies within 5% of it.
pub open spec fn quote_valid(bid: int, ask: int, reference: int) -> bool {
    &&& bid > 0
    &&& ask < u64::MAX as int
    &&& ask > bid
    &&& (ask - bid) * 200 < bid
    &&& (reference > 0 ==> abs_diff(bid + ask, 2 * reference) * 10 < reference)
}

/// The reference price moves 1% of the way to the mid price (rounded down);
/// the first accepted mid price becomes the reference.
pub open spec fn next_reference(reference: int, bid: int, ask: int) -> int {
    if reference > 0 {
        (198 * reference + bid + ask) / 200
    } else {
        (bid + ask) / 2
    }
}

/// The public book after a quote: taken when valid, else only marked invalid.
pub open spec fn book_after_quote(
    ob: OrderBook,
    bid: u64,
    ask: u64,
    bids_volume: u64,
    asks_volume: u64,
    time: i64,
) -> OrderBook {
    if quote_valid(bid as int, ask as int, ob.reference_price as int) {
        OrderBook {
            best_bid: bid,
            best_ask: ask,
            bids_volume,
            asks_volume,
            last_update_time: time,
            is_valid: true,
            reference_price: next_reference(ob.reference_price as int, bid as int, ask as int) as u64,
        }
    } else {
        OrderBook { is_valid: false, ..ob }
    }
}

/// The best bid of a side, or 0 when it is empty.
pub open spec fn best_or_zero(s: Seq<PriceLevel>) -> u64 {
    if s.len() > 0 {
        s[0].price
    } else {
        0
    }
}

/// The best ask of a side, or `u64::MAX` when it is empty.
pub open spec fn best_or_max(s: Seq<PriceLevel>) -> u64 {
    if s.len() > 0 {
        s[0].price
    } else {
        u64::MAX
    }
}

/// The number of levels on each side whose volume is reported.
pub const TOP_LEVELS: usize = 5;

proof fn lemma_entries_take_step(entries: Seq<Vec<String>>, i: int)
    requires
        0 <= i < entries.len(),
    ensures
        entries.take(i + 1).drop_last() == entries.take(i),
        entries.take(i + 1).last() == entries[i],
{
    assert(entries.take(i + 1).drop_last() =~= entries.take(i));
}

impl InternalOrderBook {
    fn apply_bid_entries(&mut self, entries: &Vec<Vec<String>>, snapshot: bool)
        requires
            old(self).wf(),
        ensures
            final(self).wf(),
            final(self).bids_view() == (if snapshot {
                bids_after_snapshot(old(self).bids_view(), entries@)
            } else {
                bids_after_entries(old(self).bids_view(), entries@)
            }),
            final(self).asks_view() == old(self).asks_view(),
            final(self).update_id() == old(self).update_id(),
    {
        let n = entries.len();
        let mut i: usize = 0;
        while i < n
            invariant
                n == entries@.len(),
                i <= n,
                self.wf(),
                self.bids_view() == (if snapshot {
                    bids_after_snapshot(old(self).bids_view(), entries@.take(i as int))
                } else {
                    bids_after_entries(old(self).bids_view(), entries@.take(i as int))
                }),
                self.asks_view() == old(self).asks_view(),
                self.update_id() == old(self).update_id(),
            decreases n - i,
        {
            proof {
                lemma_entries_take_step(entries@, i as int);
            }
            let entry = &entries[i];
            if entry.len() >= 2 {
                let price = amount_of(entry[0].as_str());
                let qty = amount_of(entry[1].as_str());
                if !snapshot || (price > 0 && qty > 0) {
                    self.update_bid(price, qty);
                }
            }
            i = i + 1;
        }
        proof {
            assert(entries@.take(n as int) =~= entries@);
        }
    }

    fn apply_ask_entries(&mut self, entries: &Vec<Vec<String>>, snapshot: bool)
        requires
            old(self).wf(),
        ensures
            final(self).wf(),
            final(self).asks_view() == (if snapshot {
                asks_after_snapshot(old(self).asks_view(), entries@)
            } else {
                asks_after_entries(old(self).asks_view(), entries@)
            }),
            final(self).bids_view() == old(self).bids_view(),
            final(self).update_id() == old(self).update_id(),
    {
        let n = entries.len();
        let mut i: usize = 0;
        while i < n
            invariant
                n == entries@.len(),
                i <= n,
                self.wf(),
                self.asks_view() == (if snapshot {
                    asks_after_snapshot(old(self).asks_view(), entries@.take(i as int))
                } else {
                    asks_after_entries(old(self).asks_view(), entries@.take(i as int))
                }),
                self.bids_view() == old(self).bids_view(),
                self.update_id() == old(self).update_id(),
            decreases n - i,
        {
            proof {
                lemma_entries_take_step(entries@, i as int);
            }
            let entry = &entries[i];
            if entry.len() >= 2 {
                let price = amount_of(entry[0].as_str());
                let qty = amount_of(entry[1].as_str());
                if !snapshot || (price > 0 && qty > 0) {
                    self.update_ask(price, qty);
                }
            }
            i = i + 1;
        }
        proof {
            assert(entries@.take(n as int) =~= entries@);
        }
    }

    /// Loads a REST snapshot: its update id is taken, and every entry with a
    /// positive price and quantity is set in the book.
    pub fn load_snapshot(&mut self, snapshot: &DepthSnapshot)
        requires
            old(self).wf(),
        ensures
            final(self).wf(),
            final(self).update_id() == snapshot.lastUpdateId,
            final(self).bids_view() == bids_after_snapshot(old(self).bids_view(), snapshot.bids@),
            final(self).asks_view() == asks_after_snapshot(old(self).asks_view(), snapshot.asks@),
    {
        self.last_update_id = snapshot.lastUpdateId;
        self.apply_bid_entries(&snapshot.bids, true);
        self.apply_ask_entries(&snapshot.asks, true);
    }
}

/// The books `(book2, ob2)` are `(book, ob)` unchanged.
pub open spec fn book_unchanged(
    book: InternalOrderBook,
    ob: OrderBook,
    book2: InternalOrderBook,
    ob2: OrderBook,
) -> bool {
    &&& book2.bids_view() == book.bids_view()
    &&& book2.asks_view() == book.asks_view()
    &&& book2.update_id() == book.update_id()
    &&& ob2 == ob
}

/// The books `(book2, ob2)` are `(book, ob)` after `update` is applied: its
/// entries set on each side, its final id recorded, and the public book
/// updated by `book_after_quote` from the new best prices and the volume of
/// the best `TOP_LEVELS` levels.
pub open spec fn update_applied(
    book: InternalOrderBook,
    ob: OrderBook,
    update: DepthUpdate,
    book2: InternalOrderBook,
    ob2: OrderBook,
) -> bool {
    let bids = bids_after_entries(book.bids_view(), update.bids@);
    let asks = asks_after_entries(book.asks_view(), update.asks@);
    &&& book2.bids_view() == bids
    &&& book2.asks_view() == asks
    &&& book2.update_id() == update.final_update_id
    &&& ob2 == book_after_quote(
        ob,
        best_or_zero(bids),
        best_or_max(asks),
        top_volume(bids, TOP_LEVELS as int),
        top_volume(asks, TOP_LEVELS as int),
        update.event_time,
    )
}

/// Applies one depth update.  An update whose final id is not past the last
/// applied id is dropped.  Otherwise its bid and ask entries are set in the
/// book, its final id is recorded, and the public book takes the new best
/// prices and the volume of the best five levels on each side, provided the
/// quote passes the sanity checks of `quote_valid`; a quote that fails them
/// only marks the public book invalid.
pub fn process_depth_update(orderbook: &mut OrderBook, internal: &mut InternalOrderBook, update: &DepthUpdate)
    requires
        old(internal).wf(),
    ensures
        final(internal).wf(),
        update.final_update_id <= old(internal).update_id() ==> book_unchanged(
            *old(internal),
            *old(orderbook),
            *final(internal),
            *final(orderbook),
        ),
        update.final_update_id > old(internal).update_id() ==> update_applied(
            *old(internal),
            *old(orderbook),
            *update,
            *final(internal),
            *final(orderbook),
        ),
{
    if update.final_update_id <= internal.last_update_id() {
        return;
    }
    internal.apply_bid_entries(&update.bids, false);
    internal.apply_ask_entries(&update.asks, false);
    internal.last_update_id = update.final_update_id;

    let best_bid = match internal.best_bid() {
        Some(p) => p,
        None => 0,
    };
    let best_ask = match internal.best_ask() {
        Some(p) => p,
        None => u64::MAX,
    };
    let bids_vol = internal.top_bids_volume(TOP_LEVELS);
    let asks_vol = internal.top_asks_volume(TOP_LEVELS);

    let reference = orderbook.reference_price;
    let basic_valid = best_bid > 0 && best_ask < u64::MAX && best_ask > best_bid;
    let spread_valid = basic_valid && ((best_ask - best_bid) as u128) * 200 < best_bid as u128;
    let sum = best_bid as u128 + best_ask as u128;
    let twice_ref = 2 * (reference as u128);
    let deviation = if sum >= twice_ref {
        sum - twice_ref
    } else {
        twice_ref - sum
    };
    let reference_valid = if reference > 0 {
        deviation * 10 < reference as u128
    } else {
        true
    };
    if basic_valid && spread_valid && reference_valid {
        orderbook.best_bid = best_bid;
        orderbook.best_ask = best_ask;
        orderbook.bids_volume = bids_vol;
        orderbook.asks_volume = asks_vol;
        orderbook.last_update_time = update.event_time;
        orderbook.is_valid = true;
        orderbook.reference_price = if reference > 0 {
            ((198 * (reference as u128) + sum) / 200) as u64
        } else {
            (sum / 2) as u64
        };
    } else {
        orderbook.is_valid = false;
    }
}

/// The upper-case form of an ASCII character; any other character is kept.
pub open spec fn upper_char(c: char) -> char {
    if 'a' <= c <= 'z' {
        ((c as int) - 32) as char
    } else {
        c
    }
}

/// The lower-case form of an ASCII character; any other character is kept.
pub open spec fn lower_char(c: char) -> char {
    if 'A' <= c <= 'Z' {
        ((c as int) + 32) as char
    } else {
        c
    }
}

pub open spec fn ascii_upper(s: Seq<char>) -> Seq<char> {
    Seq::new(s.len(), |i: int| upper_char(s[i]))
}

pub open spec fn ascii_lower(s: Seq<char>) -> Seq<char> {
    Seq::new(s.len(), |i: int| lower_char(s[i]))
}

/// std's `str::to_uppercase`.  Its documentation maps every character to
/// its Unicode upper case; for ASCII text that turns `a`-`z` into `A`-`Z`
/// and keeps every other character, which is what is stated here.  Nothing
/// is stated of text with other characters.
#[verifier::external_body]
fn upper_text(s: &str) -> (r: String)
    ensures
        vstd::string::is_ascii(s) ==> r@ == ascii_upper(s@),
{
    s.to_uppercase()
}

/// std's `str::to_lowercase`: for ASCII text `A`-`Z` become `a`-`z` and
/// every other character is kept.  Nothing is stated of text with other
/// characters.
#[verifier::external_body]
fn lower_text(s: &str) -> (r: String)
    ensures
        vstd::string::is_ascii(s) ==> r@ == ascii_lower(s@),
{
    s.to_lowercase()
}

/// The REST depth snapshot address for a symbol (the best 100 levels).
pub open spec fn snapshot_url_text(symbol: Seq<char>) -> Seq<char> {
    "https://fapi.binance.com/fapi/v1/depth?symbol="@ + symbol + "&limit=100"@
}

/// The depth stream address for a (lower-case) symbol, updated every 100 ms.
pub open spec fn stream_url_text(lower_symbol: Seq<char>) -> Seq<char> {
    "wss://fstream.binance.com/ws/"@ + lower_symbol + "@depth@100ms"@
}

/// The order-book client of one symbol: the local book kept from the
/// snapshot and the depth updates, and the public book the traders read.
/// The network side (fetching the snapshot, reading the stream) is done by
/// the caller, which hands the data to `load_snapshot` and `apply_update`.
pub struct BinanceWsClient {
    orderbook: OrderBook,
    internal: InternalOrderBook,
    symbol: String,
}

impl BinanceWsClient {
    pub closed spec fn orderbook_view(&self) -> OrderBook {
        self.orderbook
    }

    pub closed spec fn book_view(&self) -> InternalOrderBook {
        self.internal
    }

    pub closed spec fn symbol_view(&self) -> Seq<char> {
        self.symbol@
    }

    /// The local book is well formed.
    pub open spec fn wf(&self) -> bool {
        self.book_view().wf()
    }

    /// A client for `symbol`, kept in upper case, with an empty book.
    pub fn new(symbol: &str) -> (r: Self)
        ensures
            r.wf(),
            vstd::string::is_ascii(symbol) ==> r.symbol_view() == ascii_upper(symbol@),
            r.orderbook_view() == (OrderBook {
                best_bid: 0,
                best_ask: 0,
                bids_volume: 0,
                asks_volume: 0,
                last_update_time: 0,
                is_valid: false,
                reference_price: 0,
            }),
            r.book_view().bids_view() == Seq::<PriceLevel>::empty(),
            r.book_view().asks_view() == Seq::<PriceLevel>::empty(),
            r.book_view().update_id() == 0,
    {
        BinanceWsClient {
            orderbook: OrderBook::default(),
            internal: InternalOrderBook::new(),
            symbol: upper_text(symbol),
        }
    }

    /// A copy of the public book.
    pub fn orderbook(&self) -> (r: OrderBook)
        ensures
            r == self.orderbook_view(),
    {
        self.orderbook
    }

    /// The symbol, in upper case.
    pub fn symbol(&self) -> (r: &str)
        ensures
            r@ == self.symbol_view(),
    {
        self.symbol.as_str()
    }

    /// The number of bid and ask levels held.
    pub fn level_counts(&self) -> (r: (usize, usize))
        ensures
            r.0 == self.book_view().bids_view().len(),
            r.1 == self.book_view().asks_view().len(),
    {
        self.internal.level_counts()
    }

    /// The id of the last update applied to the local book.
    pub fn last_update_id(&self) -> (r: i64)
        ensures
            r == self.book_view().update_id(),
    {
        self.internal.last_update_id()
    }

    /// The best bid and ask of the local book, where there are any.
    pub fn best_prices(&self) -> (r: (Option<u64>, Option<u64>))
        ensures
            r.0 == (if self.book_view().bids_view().len() > 0 {
                Some(self.book_view().bids_view()[0].price)
            } else {
                None::<u64>
            }),
            r.1 == (if self.book_view().asks_view().len() > 0 {
                Some(self.book_view().asks_view()[0].price)
            } else {
                None::<u64>
            }),
    {
        (self.internal.best_bid(), self.internal.best_ask())
    }

    /// The address of the REST depth snapshot.
    pub fn snapshot_url(&self) -> (r: String)
        ensures
            r@ == snapshot_url_text(self.symbol_view()),
    {
        let mut s = String::new();
        s.append("https://fapi.binance.com/fapi/v1/depth?symbol=");
        s.append(self.symbol.as_str());
        s.append("&limit=100");
        s
    }

    /// The address of the depth stream (the symbol in lower case).
    pub fn stream_url(&self) -> (r: String)
        ensures
            vstd::utf8::is_ascii_chars(self.symbol_view()) ==> r@ == stream_url_text(
                ascii_lower(self.symbol_view()),
            ),
    {
        let lower = lower_text(self.symbol.as_str());
        let mut s = String::new();
        s.append("wss://fstream.binance.com/ws/");
        s.append(lower.as_str());
        s.append("@depth@100ms");
        s
    }

    /// Loads the REST snapshot into the local book (see
    /// `InternalOrderBook::load_snapshot`); the public book is unchanged.
    pub fn load_snapshot(&mut self, snapshot: &DepthSnapshot)
        requires
            old(self).wf(),
        ensures
            final(self).wf(),
            final(self).book_view().update_id() == snapshot.lastUpdateId,
            final(self).book_view().bids_view() == bids_after_snapshot(
                old(self).book_view().bids_view(),
                snapshot.bids@,
            ),
            final(self).book_view().asks_view() == asks_after_snapshot(
                old(self).book_view().asks_view(),
                snapshot.asks@,
            ),
            final(self).orderbook_view() == old(self).orderbook_view(),
            final(self).symbol_view() == old(self).symbol_view(),
    {
        self.internal.load_snapshot(snapshot);
    }

    /// Applies one depth update to both books (see `process_depth_update`).
    pub fn apply_update(&mut self, update: &DepthUpdate)
        requires
            old(self).wf(),
        ensures
            final(self).wf(),
            final(self).symbol_view() == old(self).symbol_view(),
            update.final_update_id <= old(self).book_view().update_id() ==> book_unchanged(
                old(self).book_view(),
                old(self).orderbook_view(),
                final(self).book_view(),
                final(self).orderbook_view(),
            ),
            update.final_update_id > old(self).book_view().update_id() ==> update_applied(
                old(self).book_view(),
                old(self).orderbook_view(),
                *update,
                final(self).book_view(),
                final(self).orderbook_view(),
            ),
    {
        process_depth_update(&mut self.orderbook, &mut self.internal, update);
    }
}

/// The public book takes a quote only when it is sane: a positive bid below
/// the ask, a spread under 0.5% of the bid and, once a reference price
/// exists, a mid price within 5% of it on either side (above or below).
/// A refused quote leaves the published prices, volumes, time and reference
/// as they were and marks the book invalid.
pub proof fn lemma_quote_check(ob: OrderBook, bid: u64, ask: u64, bids_volume: u64, asks_volume: u64, time: i64)
    ensures
        ({
            let nb = book_after_quote(ob, bid, ask, bids_volume, asks_volume, time);
            &&& nb.is_valid ==> 0 < bid < ask && (ask - bid) * 200 < bid && nb.best_bid == bid
                && nb.best_ask == ask && nb.bids_volume == bids_volume && nb.asks_volume == asks_volume
            &&& nb.is_valid && ob.reference_price > 0 ==> (bid + ask - 2 * ob.reference_price) * 10
                < ob.reference_price && (2 * ob.reference_price - bid - ask) * 10 < ob.reference_price
            &&& !nb.is_valid ==> nb.best_bid == ob.best_bid && nb.best_ask == ob.best_ask && nb.bids_volume
                == ob.bids_volume && nb.asks_volume == ob.asks_volume && nb.last_update_time
                == ob.last_update_time && nb.reference_price == ob.reference_price
        }),
{
}

} // verus!

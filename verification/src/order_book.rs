//! Per-outcome price ladders and the Monaco order-book store.
//!
//! An order book maps each outcome of one (fixture, market-type) pair to a
//! ladder of price levels sorted by price descending.  Within a ladder prices
//! are unique and every level carries positive liquidity; a level whose
//! liquidity drops to zero (or below) is absent.  Prices and liquidities are
//! carried in thousandths.

use vstd::prelude::*;

use crate::strutil::str_eq;

verus! {

/// One price level of an outcome's ladder, in thousandths.
#[derive(Debug, Clone, Copy, PartialEq, Eq, Structural)]
pub struct PriceLevel {
    pub price: i64,
    pub liquidity: i64,
}

/// Well-formed ladder: strictly descending prices, positive liquidity.
pub open spec fn ladder_wf(s: Seq<PriceLevel>) -> bool {
    &&& forall|i: int, j: int| 0 <= i < j < s.len() ==> s[i].price > s[j].price
    &&& forall|i: int| 0 <= i < s.len() ==> s[i].liquidity > 0
}

/// Some level of `s` quotes exactly price `p`.
pub open spec fn ladder_has_price(s: Seq<PriceLevel>, p: int) -> bool {
    exists|i: int| 0 <= i < s.len() && s[i].price == p
}

/// Index of the level quoting `p` (unique in a well-formed ladder).
pub open spec fn ladder_index_of(s: Seq<PriceLevel>, p: int) -> int {
    choose|i: int| 0 <= i < s.len() && s[i].price == p
}

/// Position at which a new level with price `p` belongs: the number of
/// levels quoting a strictly higher price.
pub open spec fn spec_insert_pos(s: Seq<PriceLevel>, p: int) -> int
    decreases s.len(),
{
    if s.len() == 0 {
        0
    } else if s[0].price < p {
        0
    } else {
        1 + spec_insert_pos(s.drop_first(), p)
    }
}

/// The ladder after one incremental price update: a non-positive liquidity
/// removes the level at `p` (if any); a positive liquidity overwrites the
/// level at `p` or inserts a new one at its sorted position.
pub open spec fn spec_apply_level(s: Seq<PriceLevel>, p: int, liq: int) -> Seq<PriceLevel> {
    if ladder_has_price(s, p) {
        if liq <= 0 {
            s.remove(ladder_index_of(s, p))
        } else {
            s.update(ladder_index_of(s, p), PriceLevel { price: p as i64, liquidity: liq as i64 })
        }
    } else if liq > 0 {
        s.insert(spec_insert_pos(s, p), PriceLevel { price: p as i64, liquidity: liq as i64 })
    } else {
        s
    }
}

/// In a well-formed ladder every index quoting `p` is `ladder_index_of`.
proof fn lemma_index_unique(s: Seq<PriceLevel>, p: int, i: int)
    requires
        ladder_wf(s),
        0 <= i < s.len(),
        s[i].price == p,
    ensures
        ladder_has_price(s, p),
        ladder_index_of(s, p) == i,
{
    assert(0 <= i < s.len() && s[i].price == p);
    let j = ladder_index_of(s, p);
    assert(0 <= j < s.len() && s[j].price == p);
    if i < j {
        assert(s[i].price > s[j].price);
    } else if j < i {
        assert(s[j].price > s[i].price);
    }
}

/// Applies one incremental price update to a ladder.
pub fn apply_level(levels: &mut Vec<PriceLevel>, price: i64, liquidity: i64)
    requires
        ladder_wf(old(levels)@),
    ensures
        final(levels)@ == spec_apply_level(old(levels)@, price as int, liquidity as int),
        ladder_wf(final(levels)@),
{
    let ghost s = levels@;
    let n = levels.len();
    let mut i: usize = 0;
    // find the first index whose price is not above `price`
    while i < n && levels[i].price > price
        invariant
            0 <= i <= n == levels@.len(),
            levels@ == s,
            forall|k: int| 0 <= k < i ==> s[k].price > price,
        decreases n - i,
    {
        i = i + 1;
    }
    if i < n && levels[i].price == price {
        proof {
            lemma_index_unique(s, price as int, i as int);
        }
        if liquidity <= 0 {
            levels.remove(i);
            proof {
                lemma_wf_remove(s, i as int);
            }
        } else {
            let lvl = PriceLevel { price, liquidity };
            levels.set(i, lvl);
            proof {
                assert(levels@ =~= s.update(i as int, lvl));
                assert forall|a: int, b: int| 0 <= a < b < levels@.len() implies levels@[a].price
                    > levels@[b].price by {
                    assert(s[a].price > s[b].price);
                }
            }
        }
    } else {
        proof {
            assert forall|k: int| i <= k < s.len() implies s[k].price < price by {
                if k > i {
                    assert(s[i as int].price > s[k].price);
                }
            }
            assert forall|k: int| 0 <= k < s.len() implies s[k].price != price by {
                if k < i {
                    assert(s[k].price > price);
                }
            }
            assert(!ladder_has_price(s, price as int));
            lemma_insert_pos(s, price as int, i as int);
        }
        if liquidity > 0 {
            let lvl = PriceLevel { price, liquidity };
            levels.insert(i, lvl);
            proof {
                let t = s.insert(i as int, lvl);
                assert(levels@ =~= t);
                assert forall|a: int, b: int| 0 <= a < b < t.len() implies t[a].price
                    > t[b].price by {
                    if a < i {
                        assert(t[a] == s[a]);
                    } else if a == i {
                        assert(t[a] == lvl);
                    } else {
                        assert(t[a] == s[a - 1]);
                    }
                    if b < i {
                        assert(t[b] == s[b]);
                    } else if b == i {
                        assert(t[b] == lvl);
                    } else {
                        assert(t[b] == s[b - 1]);
                    }
                }
                assert forall|a: int| 0 <= a < t.len() implies t[a].liquidity > 0 by {
                    if a < i {
                        assert(t[a] == s[a]);
                    } else if a == i {
                        assert(t[a] == lvl);
                    } else {
                        assert(t[a] == s[a - 1]);
                    }
                }
            }
        }
    }
}

/// The scan position found by the loop equals `spec_insert_pos`
/// when no level quotes `p` itself.
proof fn lemma_insert_pos(s: Seq<PriceLevel>, p: int, i: int)
    requires
        ladder_wf(s),
        0 <= i <= s.len(),
        forall|k: int| 0 <= k < i ==> s[k].price > p,
        i < s.len() ==> s[i].price < p,
    ensures
        spec_insert_pos(s, p) == i,
    decreases s.len(),
{
    if s.len() > 0 {
        if i == 0 {
            if s.len() > 0 && !(s[0].price > p) {
            }
        } else {
            assert(s[0].price > p);
            let t = s.drop_first();
            assert(ladder_wf(t)) by {
                assert(forall|a: int, b: int|
                    0 <= a < b < t.len() ==> t[a] == s[a + 1] && t[b] == s[b + 1]);
            }
            assert(forall|k: int| 0 <= k < i - 1 ==> t[k] == s[k + 1] && t[k].price > p);
            assert(i - 1 < t.len() ==> t[i - 1] == s[i]);
            lemma_insert_pos(t, p, i - 1);
        }
    }
}

/// Removing a level keeps a ladder well-formed.
proof fn lemma_wf_remove(s: Seq<PriceLevel>, i: int)
    requires
        ladder_wf(s),
        0 <= i < s.len(),
    ensures
        ladder_wf(s.remove(i)),
{
    let t = s.remove(i);
    assert forall|a: int, b: int| 0 <= a < b < t.len() implies t[a].price > t[b].price by {
        let sa = if a < i {
            a
        } else {
            a + 1
        };
        let sb = if b < i {
            b
        } else {
            b + 1
        };
        assert(t[a] == s[sa] && t[b] == s[sb]);
        assert(s[sa].price > s[sb].price);
    }
    assert forall|a: int| 0 <= a < t.len() implies t[a].liquidity > 0 by {
        let sa = if a < i {
            a
        } else {
            a + 1
        };
        assert(t[a] == s[sa]);
    }
}

/// `spec_apply_level` keeps a ladder well-formed.
pub proof fn lemma_apply_level_wf(s: Seq<PriceLevel>, p: int, liq: int)
    requires
        ladder_wf(s),
        -0x8000_0000_0000_0000 <= p <= 0x7fff_ffff_ffff_ffff,
        -0x8000_0000_0000_0000 <= liq <= 0x7fff_ffff_ffff_ffff,
    ensures
        ladder_wf(spec_apply_level(s, p, liq)),
{
    if ladder_has_price(s, p) {
        let i = ladder_index_of(s, p);
        assert(0 <= i < s.len() && s[i].price == p);
        if liq <= 0 {
            lemma_wf_remove(s, i);
        } else {
            let t = s.update(i, PriceLevel { price: p as i64, liquidity: liq as i64 });
            assert forall|a: int, b: int| 0 <= a < b < t.len() implies t[a].price > t[b].price by {
                assert(s[a].price > s[b].price);
            }
        }
    } else if liq > 0 {
        lemma_insert_pos_props(s, p);
        let pos = spec_insert_pos(s, p);
        let lvl = PriceLevel { price: p as i64, liquidity: liq as i64 };
        let t = s.insert(pos, lvl);
        assert forall|a: int, b: int| 0 <= a < b < t.len() implies t[a].price > t[b].price by {
            if a < pos {
                assert(t[a] == s[a]);
            } else if a == pos {
                assert(t[a] == lvl);
            } else {
                assert(t[a] == s[a - 1]);
            }
            if b < pos {
                assert(t[b] == s[b]);
            } else if b == pos {
                assert(t[b] == lvl);
            } else {
                assert(t[b] == s[b - 1]);
            }
        }
        assert forall|a: int| 0 <= a < t.len() implies t[a].liquidity > 0 by {
            if a < pos {
                assert(t[a] == s[a]);
            } else if a == pos {
                assert(t[a] == lvl);
            } else {
                assert(t[a] == s[a - 1]);
            }
        }
    }
}

/// Where `spec_insert_pos` points in a well-formed ladder without the price:
/// everything before is higher, everything from there on lower.
proof fn lemma_insert_pos_props(s: Seq<PriceLevel>, p: int)
    requires
        ladder_wf(s),
        !ladder_has_price(s, p),
    ensures
        0 <= spec_insert_pos(s, p) <= s.len(),
        forall|k: int| 0 <= k < spec_insert_pos(s, p) ==> s[k].price > p,
        forall|k: int| spec_insert_pos(s, p) <= k < s.len() ==> s[k].price < p,
    decreases s.len(),
{
    if s.len() > 0 {
        assert(s[0].price != p) by {
            if s[0].price == p {
                assert(ladder_has_price(s, p)) by {
                    assert(s[0].price == p);
                }
            }
        }
        if s[0].price < p {
            assert forall|k: int| 0 <= k < s.len() implies s[k].price < p by {
                if k > 0 {
                    assert(s[0].price > s[k].price);
                }
            }
        } else {
            let t = s.drop_first();
            assert(ladder_wf(t)) by {
                assert(forall|k: int| 0 <= k < t.len() ==> t[k] == s[k + 1]);
            }
            assert(!ladder_has_price(t, p)) by {
                if ladder_has_price(t, p) {
                    let k = choose|k: int| 0 <= k < t.len() && t[k].price == p;
                    assert(s[k + 1].price == p);
                    assert(ladder_has_price(s, p)) by {
                        assert(s[k + 1].price == p);
                    }
                }
            }
            lemma_insert_pos_props(t, p);
            assert(forall|k: int| 0 <= k < t.len() ==> t[k] == s[k + 1]);
            let pos = spec_insert_pos(s, p);
            assert(pos == 1 + spec_insert_pos(t, p));
            assert forall|k: int| 0 <= k < pos implies s[k].price > p by {
                if k == 0 {
                    assert(s[0].price > p);
                } else {
                    assert(t[k - 1] == s[k]);
                }
            }
            assert forall|k: int| pos <= k < s.len() implies s[k].price < p by {
                assert(t[k - 1] == s[k]);
            }
        }
    }
}

/// A zero-liquidity update removes exactly the level at that price: every
/// other level survives unchanged, and no level at `p` remains.
pub proof fn lemma_zero_liquidity_removes_exactly(s: Seq<PriceLevel>, p: int)
    requires
        ladder_wf(s),
        ladder_has_price(s, p),
    ensures
        !ladder_has_price(spec_apply_level(s, p, 0), p),
        spec_apply_level(s, p, 0).len() == s.len() - 1,
        forall|lvl: PriceLevel| #[trigger]
            spec_apply_level(s, p, 0).contains(lvl) <==> (s.contains(lvl) && lvl.price != p),
{
    let i = ladder_index_of(s, p);
    assert(0 <= i < s.len() && s[i].price == p);
    let t = s.remove(i);
    assert forall|k: int| 0 <= k < t.len() implies t[k].price != p by {
        let sk = if k < i {
            k
        } else {
            k + 1
        };
        assert(t[k] == s[sk]);
        lemma_index_unique(s, p, i);
        if s[sk].price == p {
            lemma_index_unique(s, p, sk);
        }
    }
    assert forall|lvl: PriceLevel| #[trigger] t.contains(lvl) implies (s.contains(lvl) && lvl.price
        != p) by {
        let k = choose|k: int| 0 <= k < t.len() && t[k] == lvl;
        let sk = if k < i {
            k
        } else {
            k + 1
        };
        assert(t[k] == s[sk]);
        assert(s.contains(lvl)) by {
            assert(s[sk] == lvl);
        }
    }
    assert forall|lvl: PriceLevel| s.contains(lvl) && lvl.price != p implies #[trigger] t.contains(
        lvl,
    ) by {
        let k = choose|k: int| 0 <= k < s.len() && s[k] == lvl;
        if k < i {
            assert(t[k] == lvl);
        } else {
            assert(k != i);
            assert(t[k - 1] == lvl);
        }
    }
}


/// The ladder after adding `dliq` to the liquidity at price `p` (used while
/// aggregating an initial snapshot): the summed liquidity replaces the level,
/// and a non-positive sum removes it.
pub open spec fn spec_add_level(s: Seq<PriceLevel>, p: int, dliq: int) -> Seq<PriceLevel> {
    if ladder_has_price(s, p) {
        let i = ladder_index_of(s, p);
        spec_apply_level(s, p, s[i].liquidity + dliq)
    } else {
        spec_apply_level(s, p, dliq)
    }
}

/// Adds `dliq` to the liquidity quoted at `p`, removing the level when the
/// sum is no longer positive.
pub fn add_level(levels: &mut Vec<PriceLevel>, price: i64, dliq: i64)
    requires
        ladder_wf(old(levels)@),
        -0x1000_0000_0000_0000 <= dliq <= 0x1000_0000_0000_0000,
        forall|i: int|
            0 <= i < old(levels)@.len() ==> old(levels)@[i].liquidity <= 0x1000_0000_0000_0000,
    ensures
        final(levels)@ == spec_add_level(old(levels)@, price as int, dliq as int),
        ladder_wf(final(levels)@),
{
    let ghost s = levels@;
    let n = levels.len();
    let mut i: usize = 0;
    let mut found = false;
    let mut cur: i64 = 0;
    while i < n
        invariant
            0 <= i <= n == s.len(),
            levels@ == s,
            !found ==> forall|k: int| 0 <= k < i ==> s[k].price != price,
            found ==> ladder_has_price(s, price as int) && cur == s[ladder_index_of(
                s,
                price as int,
            )].liquidity,
            ladder_wf(s),
            forall|k: int| 0 <= k < s.len() ==> s[k].liquidity <= 0x1000_0000_0000_0000,
            found ==> 0 < cur <= 0x1000_0000_0000_0000,
        decreases n - i,
    {
        if levels[i].price == price {
            proof {
                lemma_index_unique(s, price as int, i as int);
            }
            found = true;
            cur = levels[i].liquidity;
            i = n;
        } else {
            i = i + 1;
        }
    }
    if found {
        apply_level(levels, price, cur + dliq);
    } else {
        proof {
            assert(!ladder_has_price(s, price as int));
        }
        apply_level(levels, price, dliq);
    }
}

/// One price record of a Monaco market message.  Only records whose side is
/// `"Against"` take part in the book; price and liquidity are carried in
/// thousandths.
#[derive(Debug, Clone)]
pub struct MonacoPrice {
    pub side: String,
    pub outcome_id: String,
    pub price: i64,
    pub liquidity: i64,
}

/// The ladder of one outcome.
#[derive(Debug, Clone)]
pub struct OutcomeLadder {
    pub outcome_id: String,
    pub levels: Vec<PriceLevel>,
}

/// The order book of one (fixture, market-type): outcome ladders keyed by
/// the upstream outcome identifier.
#[derive(Debug, Clone)]
pub struct OrderBook {
    pub outcomes: Vec<OutcomeLadder>,
}

impl View for OrderBook {
    type V = Seq<(Seq<char>, Seq<PriceLevel>)>;

    open spec fn view(&self) -> Seq<(Seq<char>, Seq<PriceLevel>)> {
        self.outcomes@.map_values(|ol: OutcomeLadder| (ol.outcome_id@, ol.levels@))
    }
}

/// Well-formed book: outcome keys unique, every ladder well-formed.
pub open spec fn book_wf(v: Seq<(Seq<char>, Seq<PriceLevel>)>) -> bool {
    &&& forall|i: int, j: int| 0 <= i < j < v.len() ==> v[i].0 != v[j].0
    &&& forall|i: int| 0 <= i < v.len() ==> ladder_wf(v[i].1)
}

/// The book holds a ladder for `id`.
pub open spec fn book_has(v: Seq<(Seq<char>, Seq<PriceLevel>)>, id: Seq<char>) -> bool {
    exists|i: int| 0 <= i < v.len() && v[i].0 == id
}

/// Index of the ladder for `id` (unique in a well-formed book).
pub open spec fn book_index_of(v: Seq<(Seq<char>, Seq<PriceLevel>)>, id: Seq<char>) -> int {
    choose|i: int| 0 <= i < v.len() && v[i].0 == id
}

/// The ladder the book holds for `id`, or the empty ladder.
pub open spec fn book_ladder(v: Seq<(Seq<char>, Seq<PriceLevel>)>, id: Seq<char>) -> Seq<
    PriceLevel,
> {
    if book_has(v, id) {
        v[book_index_of(v, id)].1
    } else {
        Seq::empty()
    }
}

/// The book after one price record: records whose side is not `"Against"`
/// are ignored; otherwise the outcome's ladder (created empty when missing)
/// receives the price update.
pub open spec fn spec_book_apply(v: Seq<(Seq<char>, Seq<PriceLevel>)>, e: MonacoPrice) -> Seq<
    (Seq<char>, Seq<PriceLevel>),
> {
    if e.side@ != "Against"@ {
        v
    } else if book_has(v, e.outcome_id@) {
        let i = book_index_of(v, e.outcome_id@);
        v.update(i, (e.outcome_id@, spec_apply_level(v[i].1, e.price as int, e.liquidity as int)))
    } else {
        v.push((e.outcome_id@, spec_apply_level(Seq::empty(), e.price as int, e.liquidity as int)))
    }
}

/// The book after one aggregated snapshot record: an `"Against"` record
/// adds its liquidity to the level at its price (creating the outcome's
/// ladder when missing); other sides are ignored.
pub open spec fn spec_book_add(v: Seq<(Seq<char>, Seq<PriceLevel>)>, e: MonacoPrice) -> Seq<
    (Seq<char>, Seq<PriceLevel>),
> {
    if e.side@ != "Against"@ {
        v
    } else if book_has(v, e.outcome_id@) {
        let i = book_index_of(v, e.outcome_id@);
        v.update(i, (e.outcome_id@, spec_add_level(v[i].1, e.price as int, e.liquidity as int)))
    } else {
        v.push((e.outcome_id@, spec_add_level(Seq::empty(), e.price as int, e.liquidity as int)))
    }
}

/// The book after aggregating a whole snapshot, in order.
pub open spec fn spec_book_add_all(
    v: Seq<(Seq<char>, Seq<PriceLevel>)>,
    es: Seq<MonacoPrice>,
) -> Seq<(Seq<char>, Seq<PriceLevel>)>
    decreases es.len(),
{
    if es.len() == 0 {
        v
    } else {
        spec_book_add(spec_book_add_all(v, es.drop_last()), es.last())
    }
}

/// The book after a whole message of price records, applied in order.
pub open spec fn spec_book_apply_all(
    v: Seq<(Seq<char>, Seq<PriceLevel>)>,
    es: Seq<MonacoPrice>,
) -> Seq<(Seq<char>, Seq<PriceLevel>)>
    decreases es.len(),
{
    if es.len() == 0 {
        v
    } else {
        spec_book_apply(spec_book_apply_all(v, es.drop_last()), es.last())
    }
}

impl OrderBook {
    /// The empty book.
    pub fn new() -> (r: OrderBook)
        ensures
            r@ =~= Seq::<(Seq<char>, Seq<PriceLevel>)>::empty(),
            book_wf(r@),
    {
        OrderBook { outcomes: Vec::new() }
    }

    /// Position of the ladder for `id`, if the book holds one.
    fn find_outcome(&self, id: &str) -> (r: Option<usize>)
        requires
            book_wf(self@),
        ensures
            match r {
                Some(i) => i < self@.len() && self@[i as int].0 == id@ && book_has(self@, id@)
                    && book_index_of(self@, id@) == i,
                None => !book_has(self@, id@),
            },
    {
        let n = self.outcomes.len();
        let mut i: usize = 0;
        while i < n
            invariant
                0 <= i <= n == self.outcomes@.len(),
                book_wf(self@),
                forall|k: int| 0 <= k < i ==> self@[k].0 != id@,
            decreases n - i,
        {
            proof {
                assert(self@[i as int] == (self.outcomes@[i as int].outcome_id@,
                self.outcomes@[i as int].levels@));
            }
            if str_eq(self.outcomes[i].outcome_id.as_str(), id) {
                proof {
                    let j = book_index_of(self@, id@);
                    assert(book_has(self@, id@)) by {
                        assert(self@[i as int].0 == id@);
                    }
                    assert(0 <= j < self@.len() && self@[j].0 == id@);
                    if j != i as int {
                        assert(self@[j].0 != self@[i as int].0);
                    }
                }
                return Some(i);
            }
            i = i + 1;
        }
        None
    }

    /// Position of the ladder for `id`, for callers outside the module.
    pub fn find_outcome_pub(&self, id: &str) -> (r: Option<usize>)
        requires
            book_wf(self@),
        ensures
            match r {
                Some(i) => i < self@.len() && self@[i as int].0 == id@ && book_has(self@, id@)
                    && book_index_of(self@, id@) == i,
                None => !book_has(self@, id@),
            },
    {
        self.find_outcome(id)
    }

    /// Applies one price record to the book.
    pub fn apply_entry(&mut self, e: &MonacoPrice)
        requires
            book_wf(old(self)@),
        ensures
            final(self)@ == spec_book_apply(old(self)@, *e),
            book_wf(final(self)@),
    {
        let ghost v0 = self@;
        if !str_eq(e.side.as_str(), "Against") {
            return ;
        }
        match self.find_outcome(e.outcome_id.as_str()) {
            Some(i) => {
                let ghost iv = i as int;
                let mut ol = self.outcomes.remove(i);
                apply_level(&mut ol.levels, e.price, e.liquidity);
                self.outcomes.insert(i, ol);
                proof {
                    let lad = spec_apply_level(v0[iv].1, e.price as int, e.liquidity as int);
                    assert(self@ =~= v0.update(iv, (e.outcome_id@, lad)));
                    assert(book_wf(self@)) by {
                        assert(forall|k: int|
                            0 <= k < self@.len() && k != iv ==> self@[k] == v0[k]);
                    }
                }
            },
            None => {
                let mut levels: Vec<PriceLevel> = Vec::new();
                apply_level(&mut levels, e.price, e.liquidity);
                let ol = OutcomeLadder { outcome_id: e.outcome_id.clone(), levels };
                self.outcomes.push(ol);
                proof {
                    let lad = spec_apply_level(
                        Seq::empty(),
                        e.price as int,
                        e.liquidity as int,
                    );
                    assert(self@ =~= v0.push((e.outcome_id@, lad)));
                    assert(book_wf(self@)) by {
                        assert(forall|k: int| 0 <= k < v0.len() ==> self@[k] == v0[k]);
                        assert(self@[v0.len() as int].1 == lad);
                    }
                }
            },
        }
    }

    /// Applies a whole message of price records, in order.
    pub fn apply_entries(&mut self, es: &Vec<MonacoPrice>)
        requires
            book_wf(old(self)@),
        ensures
            final(self)@ == spec_book_apply_all(old(self)@, es@),
            book_wf(final(self)@),
    {
        let ghost v0 = self@;
        let n = es.len();
        let mut i: usize = 0;
        while i < n
            invariant
                0 <= i <= n == es@.len(),
                self@ == spec_book_apply_all(v0, es@.take(i as int)),
                book_wf(self@),
            decreases n - i,
        {
            self.apply_entry(&es[i]);
            proof {
                assert(es@.take(i as int + 1).drop_last() =~= es@.take(i as int));
                assert(es@.take(i as int + 1).last() == es@[i as int]);
            }
            i = i + 1;
        }
        proof {
            assert(es@.take(n as int) =~= es@);
        }
    }

    /// Aggregates one snapshot record into the book, summing liquidity at
    /// equal prices.
    pub fn add_entry(&mut self, e: &MonacoPrice)
        requires
            book_wf(old(self)@),
            -0x1000_0000_0000_0000 <= e.liquidity <= 0x1000_0000_0000_0000,
            forall|i: int, k: int|
                0 <= i < old(self)@.len() && 0 <= k < old(self)@[i].1.len() ==> (
                #[trigger] old(self)@[i].1[k]).liquidity <= 0x1000_0000_0000_0000,
        ensures
            final(self)@ == spec_book_add(old(self)@, *e),
            book_wf(final(self)@),
    {
        let ghost v0 = self@;
        if !str_eq(e.side.as_str(), "Against") {
            return ;
        }
        match self.find_outcome(e.outcome_id.as_str()) {
            Some(i) => {
                let ghost iv = i as int;
                let mut ol = self.outcomes.remove(i);
                proof {
                    assert(v0[iv].1 == ol.levels@);
                }
                add_level(&mut ol.levels, e.price, e.liquidity);
                self.outcomes.insert(i, ol);
                proof {
                    let lad = spec_add_level(v0[iv].1, e.price as int, e.liquidity as int);
                    assert(self@ =~= v0.update(iv, (e.outcome_id@, lad)));
                    assert(book_wf(self@)) by {
                        assert(forall|k: int|
                            0 <= k < self@.len() && k != iv ==> self@[k] == v0[k]);
                    }
                }
            },
            None => {
                let mut levels: Vec<PriceLevel> = Vec::new();
                add_level(&mut levels, e.price, e.liquidity);
                let ol = OutcomeLadder { outcome_id: e.outcome_id.clone(), levels };
                self.outcomes.push(ol);
                proof {
                    let lad = spec_add_level(
                        Seq::empty(),
                        e.price as int,
                        e.liquidity as int,
                    );
                    assert(self@ =~= v0.push((e.outcome_id@, lad)));
                    assert(book_wf(self@)) by {
                        assert(forall|k: int| 0 <= k < v0.len() ==> self@[k] == v0[k]);
                        assert(self@[v0.len() as int].1 == lad);
                    }
                }
            },
        }
    }

    /// Ensures a ladder exists for every listed outcome, creating empty ones;
    /// the update path does this for the outcomes named by a market mapping.
    pub fn ensure_outcomes(&mut self, ids: &Vec<String>)
        requires
            book_wf(old(self)@),
        ensures
            book_wf(final(self)@),
            forall|k: int| 0 <= k < ids@.len() ==> book_has(final(self)@, ids@[k]@),
            forall|id: Seq<char>|
                book_ladder(final(self)@, id) == book_ladder(old(self)@, id),
            forall|id: Seq<char>| book_has(old(self)@, id) ==> book_has(final(self)@, id),
    {
        let n = ids.len();
        let mut i: usize = 0;
        while i < n
            invariant
                0 <= i <= n == ids@.len(),
                book_wf(self@),
                forall|k: int| 0 <= k < i ==> book_has(self@, ids@[k]@),
                forall|id: Seq<char>| book_ladder(self@, id) == book_ladder(old(self)@, id),
                forall|id: Seq<char>| book_has(old(self)@, id) ==> book_has(self@, id),
        decreases n - i,
        {
            let ghost vpre = self@;
            match self.find_outcome(ids[i].as_str()) {
                Some(_) => {},
                None => {
                    let ol = OutcomeLadder { outcome_id: ids[i].clone(), levels: Vec::new() };
                    self.outcomes.push(ol);
                    proof {
                        assert(self@ =~= vpre.push((ids@[i as int]@, Seq::empty())));
                        assert(book_wf(self@)) by {
                            assert(forall|k: int| 0 <= k < vpre.len() ==> self@[k] == vpre[k]);
                        }
                        assert forall|id: Seq<char>| book_ladder(self@, id) == book_ladder(
                            vpre,
                            id,
                        ) by {
                            lemma_push_ladder(vpre, ids@[i as int]@, id);
                        }
                        assert forall|id: Seq<char>|
                            book_has(vpre, id) implies book_has(self@, id) by {
                            let k = book_index_of(vpre, id);
                            assert(self@[k].0 == id);
                        }
                        assert(book_has(self@, ids@[i as int]@)) by {
                            assert(self@[vpre.len() as int].0 == ids@[i as int]@);
                        }
                        assert forall|k: int| 0 <= k < i + 1 implies book_has(
                            self@,
                            ids@[k]@,
                        ) by {
                            if k < i {
                                let j = book_index_of(vpre, ids@[k]@);
                                assert(self@[j].0 == ids@[k]@);
                            }
                        }
                    }
                },
            }
            i = i + 1;
        }
    }
}

/// Pushing a fresh empty ladder does not change what any key maps to.
proof fn lemma_push_ladder(
    v: Seq<(Seq<char>, Seq<PriceLevel>)>,
    new_id: Seq<char>,
    id: Seq<char>,
)
    requires
        book_wf(v),
        !book_has(v, new_id),
    ensures
        book_ladder(v.push((new_id, Seq::empty())), id) == book_ladder(v, id),
{
    let w = v.push((new_id, Seq::<PriceLevel>::empty()));
    if id == new_id {
        assert(book_has(w, id)) by {
            assert(w[v.len() as int].0 == id);
        }
        let i = book_index_of(w, id);
        assert(0 <= i < w.len() && w[i].0 == id);
        if i < v.len() {
            assert(v[i].0 == id);
            assert(book_has(v, id));
        }
        assert(i == v.len());
        assert(book_ladder(w, id) == Seq::<PriceLevel>::empty());
    } else {
        if book_has(v, id) {
            let i = book_index_of(v, id);
            assert(w[i].0 == id);
            assert(book_has(w, id));
            let j = book_index_of(w, id);
            assert(0 <= j < w.len() && w[j].0 == id);
            assert(j != v.len());
            assert(w[j] == v[j]);
            if i != j {
                assert(v[i].0 != v[j].0);
            }
        } else {
            if book_has(w, id) {
                let j = book_index_of(w, id);
                assert(j != v.len());
                assert(v[j].0 == id);
            }
        }
    }
}

} // verus!

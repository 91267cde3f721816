//! The Monaco order-book engine: the per-(fixture, market-type) book store,
//! market-status gating, and projection of books into canonical integer
//! odds and stake vectors.

use vstd::prelude::*;

use crate::market::{outcome_mappings_view, MarketMapping, MarketType};
use crate::numeric::{monaco_encode, spec_monaco_encode};
use crate::order_book::{
    book_ladder, book_wf, spec_book_apply_all, MonacoPrice, OrderBook, PriceLevel,
};
use crate::strutil::str_eq;

verus! {

/// A market is zeroed out when its status leaves `"Open"` or it goes
/// in-play.
pub fn should_zero_market(status: &str, in_play_status: &str) -> (r: bool)
    ensures
        r == (status@ != "Open"@ || in_play_status@ == "InPlay"@),
{
    !str_eq(status, "Open") || str_eq(in_play_status, "InPlay")
}

/// One stored book of the engine.
#[derive(Debug, Clone)]
pub struct BookEntry {
    pub fixture_id: i64,
    pub market_type: MarketType,
    pub book: OrderBook,
}

/// The engine's store of order books, keyed by (fixture, market-type).
#[derive(Debug)]
pub struct MonacoOrderBook {
    pub books: Vec<BookEntry>,
}

/// Unique keys; every book well-formed.
pub open spec fn store_wf(bs: Seq<BookEntry>) -> bool {
    &&& forall|i: int, j: int|
        0 <= i < j < bs.len() ==> !(bs[i].fixture_id == bs[j].fixture_id && bs[i].market_type
            == bs[j].market_type)
    &&& forall|i: int| 0 <= i < bs.len() ==> book_wf(bs[i].book@)
}

/// The store holds a book for the key.
pub open spec fn store_has(bs: Seq<BookEntry>, fid: i64, mt: MarketType) -> bool {
    exists|i: int| 0 <= i < bs.len() && bs[i].fixture_id == fid && bs[i].market_type == mt
}

/// Index of the book for the key.
pub open spec fn store_index_of(bs: Seq<BookEntry>, fid: i64, mt: MarketType) -> int {
    choose|i: int| 0 <= i < bs.len() && bs[i].fixture_id == fid && bs[i].market_type == mt
}

/// The view of the book stored under the key, or the empty book.
pub open spec fn store_book(bs: Seq<BookEntry>, fid: i64, mt: MarketType) -> Seq<
    (Seq<char>, Seq<PriceLevel>),
> {
    if store_has(bs, fid, mt) {
        bs[store_index_of(bs, fid, mt)].book@
    } else {
        Seq::empty()
    }
}

impl MonacoOrderBook {
    /// An empty store.
    pub fn new() -> (r: MonacoOrderBook)
        ensures
            r.books@.len() == 0,
            store_wf(r.books@),
    {
        MonacoOrderBook { books: Vec::new() }
    }

    /// Drops every book.
    pub fn clear(&mut self)
        ensures
            final(self).books@.len() == 0,
            store_wf(final(self).books@),
    {
        self.books.clear();
    }

    /// Position of the book for the key, if stored.
    fn find(&self, fixture_id: i64, market_type: MarketType) -> (r: Option<usize>)
        requires
            store_wf(self.books@),
        ensures
            match r {
                Some(i) => i < self.books@.len() && self.books@[i as int].fixture_id == fixture_id
                    && self.books@[i as int].market_type == market_type && store_has(
                    self.books@,
                    fixture_id,
                    market_type,
                ) && store_index_of(self.books@, fixture_id, market_type) == i,
                None => !store_has(self.books@, fixture_id, market_type),
            },
    {
        let n = self.books.len();
        let mut i: usize = 0;
        while i < n
            invariant
                0 <= i <= n == self.books@.len(),
                store_wf(self.books@),
                forall|k: int|
                    0 <= k < i ==> !(self.books@[k].fixture_id == fixture_id
                        && self.books@[k].market_type == market_type),
            decreases n - i,
        {
            if self.books[i].fixture_id == fixture_id && market_type_eq(
                self.books[i].market_type,
                market_type,
            ) {
                proof {
                    let j = store_index_of(self.books@, fixture_id, market_type);
                    assert(store_has(self.books@, fixture_id, market_type)) by {
                        assert(self.books@[i as int].fixture_id == fixture_id
                            && self.books@[i as int].market_type == market_type);
                    }
                    if j != i as int {
                        if j < i as int {
                            assert(!(self.books@[j].fixture_id == fixture_id
                                && self.books@[j].market_type == market_type));
                        }
                    }
                }
                return Some(i);
            }
            i = i + 1;
        }
        None
    }

    /// Removes the book of a market that left the open pre-play state; the
    /// store afterwards holds nothing under the key and every other book
    /// unchanged.
    pub fn remove(&mut self, fixture_id: i64, market_type: MarketType)
        requires
            store_wf(old(self).books@),
        ensures
            store_wf(final(self).books@),
            !store_has(final(self).books@, fixture_id, market_type),
            forall|fid: i64, mt: MarketType|
                !(fid == fixture_id && mt == market_type) ==> store_book(
                    final(self).books@,
                    fid,
                    mt,
                ) == store_book(old(self).books@, fid, mt),
    {
        let ghost bs0 = self.books@;
        match self.find(fixture_id, market_type) {
            Some(i) => {
                self.books.remove(i);
                proof {
                    let bs = self.books@;
                    let iv = i as int;
                    assert(bs =~= bs0.remove(iv));
                    assert(store_wf(bs)) by {
                        assert forall|a: int, b: int| 0 <= a < b < bs.len() implies !(bs[a].fixture_id
                            == bs[b].fixture_id && bs[a].market_type == bs[b].market_type) by {
                            let sa = if a < iv {
                                a
                            } else {
                                a + 1
                            };
                            let sb = if b < iv {
                                b
                            } else {
                                b + 1
                            };
                            assert(bs[a] == bs0[sa] && bs[b] == bs0[sb]);
                        }
                        assert forall|a: int| 0 <= a < bs.len() implies book_wf(bs[a].book@) by {
                            let sa = if a < iv {
                                a
                            } else {
                                a + 1
                            };
                            assert(bs[a] == bs0[sa]);
                        }
                    }
                    assert(!store_has(bs, fixture_id, market_type)) by {
                        if store_has(bs, fixture_id, market_type) {
                            let k = store_index_of(bs, fixture_id, market_type);
                            let sk = if k < iv {
                                k
                            } else {
                                k + 1
                            };
                            assert(bs[k] == bs0[sk]);
                            assert(sk != iv);
                            lemma_store_index(bs0, fixture_id, market_type, sk);
                        }
                    }
                    assert forall|fid: i64, mt: MarketType|
                        !(fid == fixture_id && mt == market_type) implies store_book(bs, fid, mt)
                        == store_book(bs0, fid, mt) by {
                        lemma_remove_book(bs0, iv, fid, mt);
                    }
                }
            },
            None => {
                proof {
                    assert(self.books@ =~= bs0);
                }
            },
        }
    }

    /// Applies a price-update message for one (fixture, market-type): the
    /// book is created if missing (with an empty ladder for every outcome the
    /// mapping names), every `"Against"` record is applied in order, and a
    /// snapshot of the resulting book is returned.
    pub fn update(
        &mut self,
        fixture_id: i64,
        prices: &Vec<MonacoPrice>,
        market_type: MarketType,
        outcome_ids: &Vec<String>,
    ) -> (snap: OrderBook)
        requires
            store_wf(old(self).books@),
        ensures
            store_wf(final(self).books@),
            store_has(final(self).books@, fixture_id, market_type),
            forall|fid: i64, mt: MarketType|
                !(fid == fixture_id && mt == market_type) ==> store_book(
                    final(self).books@,
                    fid,
                    mt,
                ) == store_book(old(self).books@, fid, mt),
            snap@ == store_book(final(self).books@, fixture_id, market_type),
            book_wf(snap@),
            forall|id: Seq<char>|
                book_ladder(store_book(final(self).books@, fixture_id, market_type), id)
                    == book_ladder(
                    spec_book_apply_all(
                        store_book(old(self).books@, fixture_id, market_type),
                        prices@,
                    ),
                    id,
                ),
    {
        let ghost bs0 = self.books@;
        let idx: usize = match self.find(fixture_id, market_type) {
            Some(i) => i,
            None => {
                let mut book = OrderBook::new();
                book.ensure_outcomes(outcome_ids);
                let i = self.books.len();
                self.books.push(BookEntry { fixture_id, market_type, book });
                proof {
                    let bs = self.books@;
                    assert(forall|k: int| 0 <= k < bs0.len() ==> bs[k] == bs0[k]);
                    assert(store_wf(bs)) by {
                        assert(bs[bs0.len() as int].fixture_id == fixture_id
                            && bs[bs0.len() as int].market_type == market_type);
                        assert(forall|k: int|
                            0 <= k < bs0.len() ==> !(bs0[k].fixture_id == fixture_id && bs0[k].market_type
                                == market_type));
                    }
                }
                i
            },
        };
        let ghost bs1 = self.books@;
        let ghost iv = idx as int;
        let ghost init = self.books@[idx as int].book@;
        let mut entry = self.books.remove(idx);
        entry.book.apply_entries(prices);
        let snap = entry.book.clone_book();
        self.books.insert(idx, entry);
        proof {
            let bs = self.books@;
            assert(bs =~= bs1.update(iv, bs[iv]));
            assert(bs[iv].fixture_id == fixture_id && bs[iv].market_type == market_type);
            assert(bs[iv].book@ == spec_book_apply_all(init, prices@));
            assert(store_wf(bs)) by {
                assert(forall|k: int| 0 <= k < bs.len() && k != iv ==> bs[k] == bs1[k]);
            }
            lemma_store_index(bs, fixture_id, market_type, iv);
            lemma_store_index(bs1, fixture_id, market_type, iv);
            assert(store_book(bs, fixture_id, market_type) == spec_book_apply_all(init, prices@));
            // books under other keys are untouched
            assert forall|fid: i64, mt: MarketType|
                !(fid == fixture_id && mt == market_type) implies store_book(bs, fid, mt)
                == store_book(bs0, fid, mt) by {
                lemma_other_books(bs0, bs1, bs, iv, fid, mt);
            }
            // the initial book: stored one, or the freshly seeded one whose
            // every ladder is empty, which applies identically
            if store_has(bs0, fixture_id, market_type) {
                lemma_store_index(bs0, fixture_id, market_type, iv);
                assert(init == store_book(bs0, fixture_id, market_type));
            } else {
                assert forall|id: Seq<char>| #[trigger] book_ladder(init, id) == book_ladder(
                    store_book(bs0, fixture_id, market_type),
                    id,
                ) by {
                    assert(store_book(bs0, fixture_id, market_type) =~= Seq::<(
                        Seq<char>,
                        Seq<PriceLevel>,
                    )>::empty());
                    assert(book_ladder(init, id) =~= Seq::<PriceLevel>::empty());
                }
                assert forall|id: Seq<char>| #[trigger] book_ladder(
                    spec_book_apply_all(init, prices@),
                    id,
                ) == book_ladder(
                    spec_book_apply_all(store_book(bs0, fixture_id, market_type), prices@),
                    id,
                ) by {
                    lemma_apply_all_ladders(
                        init,
                        store_book(bs0, fixture_id, market_type),
                        prices@,
                        id,
                    );
                }
            }
        }
        snap
    }

    /// A snapshot of the stored book for the key, if any.
    pub fn get_order_book(&self, fixture_id: i64, market_type: MarketType) -> (r: Option<
        OrderBook,
    >)
        requires
            store_wf(self.books@),
        ensures
            match r {
                Some(b) => store_has(self.books@, fixture_id, market_type) && b@ == store_book(
                    self.books@,
                    fixture_id,
                    market_type,
                ),
                None => !store_has(self.books@, fixture_id, market_type),
            },
    {
        match self.find(fixture_id, market_type) {
            Some(i) => Some(self.books[i].book.clone_book()),
            None => None,
        }
    }
}

/// Market-type equality by variant.
pub fn market_type_eq(a: MarketType, b: MarketType) -> (r: bool)
    ensures
        r == (a == b),
{
    match (a, b) {
        (MarketType::X12, MarketType::X12) => true,
        (MarketType::Ah, MarketType::Ah) => true,
        (MarketType::Ou, MarketType::Ou) => true,
        _ => false,
    }
}

impl OrderBook {
    /// A deep copy with the same view.
    pub fn clone_book(&self) -> (r: OrderBook)
        ensures
            r@ == self@,
    {
        let mut outcomes: Vec<crate::order_book::OutcomeLadder> = Vec::new();
        let n = self.outcomes.len();
        let mut i: usize = 0;
        while i < n
            invariant
                0 <= i <= n == self.outcomes@.len(),
                outcomes@.len() == i,
                forall|k: int|
                    0 <= k < i ==> outcomes@[k].outcome_id@ == self.outcomes@[k].outcome_id@
                        && outcomes@[k].levels@ == self.outcomes@[k].levels@,
            decreases n - i,
        {
            let ol = crate::order_book::OutcomeLadder {
                outcome_id: self.outcomes[i].outcome_id.clone(),
                levels: clone_levels(&self.outcomes[i].levels),
            };
            outcomes.push(ol);
            i = i + 1;
        }
        let r = OrderBook { outcomes };
        proof {
            assert(r@ =~= self@);
        }
        r
    }
}

/// A copy of a ladder with the same view.
fn clone_levels(levels: &Vec<PriceLevel>) -> (r: Vec<PriceLevel>)
    ensures
        r@ == levels@,
{
    let mut r: Vec<PriceLevel> = Vec::new();
    let n = levels.len();
    let mut i: usize = 0;
    while i < n
        invariant
            0 <= i <= n == levels@.len(),
            r@ =~= levels@.take(i as int),
        decreases n - i,
    {
        r.push(levels[i]);
        proof {
            assert(r@ =~= levels@.take(i as int + 1));
        }
        i = i + 1;
    }
    proof {
        assert(levels@.take(n as int) =~= levels@);
    }
    r
}

/// Any index holding the key is the store index.
proof fn lemma_store_index(bs: Seq<BookEntry>, fid: i64, mt: MarketType, i: int)
    requires
        store_wf(bs),
        0 <= i < bs.len(),
        bs[i].fixture_id == fid,
        bs[i].market_type == mt,
    ensures
        store_has(bs, fid, mt),
        store_index_of(bs, fid, mt) == i,
{
    assert(store_has(bs, fid, mt)) by {
        assert(bs[i].fixture_id == fid && bs[i].market_type == mt);
    }
    let j = store_index_of(bs, fid, mt);
    if j < i {
        assert(!(bs[j].fixture_id == bs[i].fixture_id && bs[j].market_type == bs[i].market_type));
    } else if i < j {
        assert(!(bs[i].fixture_id == bs[j].fixture_id && bs[i].market_type == bs[j].market_type));
    }
}

/// Removing index `i` leaves every other key's book unchanged.
proof fn lemma_remove_book(bs0: Seq<BookEntry>, i: int, fid: i64, mt: MarketType)
    requires
        store_wf(bs0),
        0 <= i < bs0.len(),
        !(bs0[i].fixture_id == fid && bs0[i].market_type == mt),
    ensures
        store_book(bs0.remove(i), fid, mt) == store_book(bs0, fid, mt),
{
    let bs = bs0.remove(i);
    assert(store_wf(bs)) by {
        assert forall|a: int, b: int| 0 <= a < b < bs.len() implies !(bs[a].fixture_id
            == bs[b].fixture_id && bs[a].market_type == bs[b].market_type) by {
            let sa = if a < i {
                a
            } else {
                a + 1
            };
            let sb = if b < i {
                b
            } else {
                b + 1
            };
            assert(bs[a] == bs0[sa] && bs[b] == bs0[sb]);
        }
        assert forall|a: int| 0 <= a < bs.len() implies book_wf(bs[a].book@) by {
            let sa = if a < i {
                a
            } else {
                a + 1
            };
            assert(bs[a] == bs0[sa]);
        }
    }
    if store_has(bs0, fid, mt) {
        let k = store_index_of(bs0, fid, mt);
        assert(k != i);
        let nk = if k < i {
            k
        } else {
            k - 1
        };
        assert(bs[nk] == bs0[k]);
        lemma_store_index(bs, fid, mt, nk);
    } else {
        if store_has(bs, fid, mt) {
            let k = store_index_of(bs, fid, mt);
            let sk = if k < i {
                k
            } else {
                k + 1
            };
            assert(bs[k] == bs0[sk]);
            assert(store_has(bs0, fid, mt)) by {
                assert(bs0[sk].fixture_id == fid && bs0[sk].market_type == mt);
            }
        }
    }
}

/// Updating (or appending at) index `iv` leaves every other key's book
/// unchanged across the push-then-update pair of steps.
proof fn lemma_other_books(
    bs0: Seq<BookEntry>,
    bs1: Seq<BookEntry>,
    bs: Seq<BookEntry>,
    iv: int,
    fid: i64,
    mt: MarketType,
)
    requires
        store_wf(bs0),
        store_wf(bs1),
        store_wf(bs),
        0 <= iv < bs1.len(),
        bs.len() == bs1.len(),
        bs1.len() == bs0.len() || (bs1.len() == bs0.len() + 1 && iv == bs0.len()),
        forall|k: int| 0 <= k < bs0.len() && k != iv ==> bs1[k] == bs0[k],
        iv < bs0.len() ==> bs0[iv].fixture_id == bs1[iv].fixture_id && bs0[iv].market_type
            == bs1[iv].market_type,
        forall|k: int| 0 <= k < bs.len() && k != iv ==> bs[k] == bs1[k],
        !(fid == bs1[iv].fixture_id && mt == bs1[iv].market_type),
        bs[iv].fixture_id == bs1[iv].fixture_id && bs[iv].market_type == bs1[iv].market_type,
    ensures
        store_book(bs, fid, mt) == store_book(bs0, fid, mt),
{
    if store_has(bs0, fid, mt) {
        let k = store_index_of(bs0, fid, mt);
        assert(bs0[k].fixture_id == fid && bs0[k].market_type == mt);
        assert(k != iv);
        assert(bs[k] == bs0[k]);
        lemma_store_index(bs, fid, mt, k);
    } else {
        if store_has(bs, fid, mt) {
            let k = store_index_of(bs, fid, mt);
            assert(bs[k].fixture_id == fid && bs[k].market_type == mt);
            assert(k != iv);
            assert(bs[k] == bs1[k]);
            if k < bs0.len() {
                assert(bs1[k] == bs0[k]);
                assert(store_has(bs0, fid, mt)) by {
                    assert(bs0[k].fixture_id == fid && bs0[k].market_type == mt);
                }
            }
        }
    }
}

/// Two initial books with identical ladders everywhere keep identical
/// ladders under any sequence of applied records.
proof fn lemma_apply_all_ladders(
    v1: Seq<(Seq<char>, Seq<PriceLevel>)>,
    v2: Seq<(Seq<char>, Seq<PriceLevel>)>,
    es: Seq<MonacoPrice>,
    id: Seq<char>,
)
    requires
        book_wf(v1),
        book_wf(v2),
        forall|x: Seq<char>| #[trigger] book_ladder(v1, x) == book_ladder(v2, x),
    ensures
        book_ladder(spec_book_apply_all(v1, es), id) == book_ladder(
            spec_book_apply_all(v2, es),
            id,
        ),
    decreases es.len(),
{
    if es.len() > 0 {
        lemma_apply_all_wf(v1, es.drop_last());
        lemma_apply_all_wf(v2, es.drop_last());
        assert forall|x: Seq<char>| #[trigger] book_ladder(
            spec_book_apply_all(v1, es.drop_last()),
            x,
        ) == book_ladder(spec_book_apply_all(v2, es.drop_last()), x) by {
            lemma_apply_all_ladders(v1, v2, es.drop_last(), x);
        }
        lemma_apply_ladder(spec_book_apply_all(v1, es.drop_last()), es.last(), id);
        lemma_apply_ladder(spec_book_apply_all(v2, es.drop_last()), es.last(), id);
    }
}

/// Applying records keeps a book well-formed.
pub proof fn lemma_apply_all_wf(v: Seq<(Seq<char>, Seq<PriceLevel>)>, es: Seq<MonacoPrice>)
    requires
        book_wf(v),
    ensures
        book_wf(spec_book_apply_all(v, es)),
    decreases es.len(),
{
    if es.len() > 0 {
        lemma_apply_all_wf(v, es.drop_last());
        lemma_apply_wf(spec_book_apply_all(v, es.drop_last()), es.last());
    }
}

/// Applying one record keeps a book well-formed.
proof fn lemma_apply_wf(v: Seq<(Seq<char>, Seq<PriceLevel>)>, e: MonacoPrice)
    requires
        book_wf(v),
    ensures
        book_wf(crate::order_book::spec_book_apply(v, e)),
{
    let w = crate::order_book::spec_book_apply(v, e);
    if e.side@ != "Against"@ {
    } else if crate::order_book::book_has(v, e.outcome_id@) {
        let i = crate::order_book::book_index_of(v, e.outcome_id@);
        crate::order_book::lemma_apply_level_wf(v[i].1, e.price as int, e.liquidity as int);
        assert(forall|k: int| 0 <= k < w.len() && k != i ==> w[k] == v[k]);
        assert(w[i].0 == v[i].0);
        assert forall|a: int, b: int| 0 <= a < b < w.len() implies w[a].0 != w[b].0 by {
            assert(w[a].0 == v[a].0 && w[b].0 == v[b].0);
        }
    } else {
        crate::order_book::lemma_apply_level_wf(
            Seq::<PriceLevel>::empty(),
            e.price as int,
            e.liquidity as int,
        );
        assert(forall|k: int| 0 <= k < v.len() ==> w[k] == v[k]);
        assert forall|a: int, b: int| 0 <= a < b < w.len() implies w[a].0 != w[b].0 by {
            if b == v.len() {
                assert(w[b].0 == e.outcome_id@);
                assert(w[a].0 == v[a].0);
                assert(!crate::order_book::book_has(v, e.outcome_id@));
                if v[a].0 == e.outcome_id@ {
                    assert(crate::order_book::book_has(v, e.outcome_id@)) by {
                        assert(v[a].0 == e.outcome_id@);
                    }
                }
            } else {
                assert(w[a].0 == v[a].0 && w[b].0 == v[b].0);
            }
        }
    }
}

/// How one applied record changes the ladder under `id`.
proof fn lemma_apply_ladder(v: Seq<(Seq<char>, Seq<PriceLevel>)>, e: MonacoPrice, id: Seq<char>)
    requires
        book_wf(v),
    ensures
        book_ladder(crate::order_book::spec_book_apply(v, e), id) == if e.side@ == "Against"@
            && e.outcome_id@ == id {
            crate::order_book::spec_apply_level(book_ladder(v, id), e.price as int, e.liquidity as int)
        } else {
            book_ladder(v, id)
        },
{
    let w = crate::order_book::spec_book_apply(v, e);
    lemma_apply_wf(v, e);
    if e.side@ != "Against"@ {
    } else if crate::order_book::book_has(v, e.outcome_id@) {
        let i = crate::order_book::book_index_of(v, e.outcome_id@);
        assert(0 <= i < v.len() && v[i].0 == e.outcome_id@);
        assert(forall|k: int| 0 <= k < w.len() && k != i ==> w[k] == v[k]);
        if id == e.outcome_id@ {
            lemma_book_index(w, id, i);
            lemma_book_index(v, id, i);
        } else {
            if crate::order_book::book_has(v, id) {
                let k = crate::order_book::book_index_of(v, id);
                assert(k != i);
                assert(w[k] == v[k]);
                lemma_book_index(w, id, k);
            } else {
                if crate::order_book::book_has(w, id) {
                    let k = crate::order_book::book_index_of(w, id);
                    assert(k != i);
                    assert(w[k] == v[k]);
                    assert(crate::order_book::book_has(v, id)) by {
                        assert(v[k].0 == id);
                    }
                }
            }
        }
    } else {
        assert(forall|k: int| 0 <= k < v.len() ==> w[k] == v[k]);
        if id == e.outcome_id@ {
            assert(w[v.len() as int].0 == id);
            lemma_book_index_fresh(w, v, id);
            assert(book_ladder(v, id) =~= Seq::<PriceLevel>::empty());
        } else {
            if crate::order_book::book_has(v, id) {
                let k = crate::order_book::book_index_of(v, id);
                assert(w[k] == v[k]);
                lemma_book_index(w, id, k);
            } else {
                if crate::order_book::book_has(w, id) {
                    let k = crate::order_book::book_index_of(w, id);
                    if k < v.len() {
                        assert(crate::order_book::book_has(v, id)) by {
                            assert(v[k].0 == id);
                        }
                    } else {
                        assert(w[k].0 == e.outcome_id@);
                    }
                }
            }
        }
    }
}

/// Any index holding `id` in a well-formed book is the book index.
proof fn lemma_book_index(v: Seq<(Seq<char>, Seq<PriceLevel>)>, id: Seq<char>, i: int)
    requires
        book_wf(v),
        0 <= i < v.len(),
        v[i].0 == id,
    ensures
        crate::order_book::book_has(v, id),
        crate::order_book::book_index_of(v, id) == i,
{
    assert(crate::order_book::book_has(v, id)) by {
        assert(v[i].0 == id);
    }
    let j = crate::order_book::book_index_of(v, id);
    if j < i {
        assert(v[j].0 != v[i].0);
    } else if i < j {
        assert(v[i].0 != v[j].0);
    }
}

/// After pushing a fresh key its index is the last position.
proof fn lemma_book_index_fresh(
    w: Seq<(Seq<char>, Seq<PriceLevel>)>,
    v: Seq<(Seq<char>, Seq<PriceLevel>)>,
    id: Seq<char>,
)
    requires
        book_wf(v),
        !crate::order_book::book_has(v, id),
        w.len() == v.len() + 1,
        forall|k: int| 0 <= k < v.len() ==> w[k] == v[k],
        w[v.len() as int].0 == id,
    ensures
        crate::order_book::book_has(w, id),
        crate::order_book::book_index_of(w, id) == v.len(),
{
    assert(crate::order_book::book_has(w, id)) by {
        assert(w[v.len() as int].0 == id);
    }
    let j = crate::order_book::book_index_of(w, id);
    if j < v.len() {
        assert(w[j] == v[j]);
        assert(crate::order_book::book_has(v, id)) by {
            assert(v[j].0 == id);
        }
    }
}


/// First pair assigned exactly index `idx` whose ladder is non-empty: its
/// best level.
pub open spec fn spec_index_best_in(
    bookv: Seq<(Seq<char>, Seq<PriceLevel>)>,
    pairs: Seq<(Seq<char>, int)>,
    idx: int,
) -> Option<PriceLevel>
    decreases pairs.len(),
{
    if pairs.len() == 0 {
        None
    } else if pairs[0].1 == idx && book_ladder(bookv, pairs[0].0).len() > 0 {
        Some(book_ladder(bookv, pairs[0].0)[0])
    } else {
        spec_index_best_in(bookv, pairs.drop_first(), idx)
    }
}

/// First pair of index parity `side` (0 home/over, 1 away/under) whose
/// ladder is non-empty: its best level.
pub open spec fn spec_side_best_in(
    bookv: Seq<(Seq<char>, Seq<PriceLevel>)>,
    pairs: Seq<(Seq<char>, int)>,
    side: int,
) -> Option<PriceLevel>
    decreases pairs.len(),
{
    if pairs.len() == 0 {
        None
    } else if pairs[0].1 % 2 == side && book_ladder(bookv, pairs[0].0).len() > 0 {
        Some(book_ladder(bookv, pairs[0].0)[0])
    } else {
        spec_side_best_in(bookv, pairs.drop_first(), side)
    }
}

/// Best level for a three-way slot: the first mapping of type `x12` that
/// assigns `idx` to an outcome with a non-empty ladder.
pub open spec fn spec_x12_best(
    bookv: Seq<(Seq<char>, Seq<PriceLevel>)>,
    ms: Seq<MarketMapping>,
    idx: int,
) -> Option<PriceLevel>
    decreases ms.len(),
{
    if ms.len() == 0 {
        None
    } else if ms[0].market_type == MarketType::X12 && spec_index_best_in(
        bookv,
        outcome_mappings_view(ms[0].outcome_mappings@),
        idx,
    ) is Some {
        spec_index_best_in(bookv, outcome_mappings_view(ms[0].outcome_mappings@), idx)
    } else {
        spec_x12_best(bookv, ms.drop_first(), idx)
    }
}

/// Best level for a line slot: the first mapping of the given type carrying
/// exactly this line whose outcome of the given parity has a non-empty
/// ladder.
pub open spec fn spec_line_best(
    bookv: Seq<(Seq<char>, Seq<PriceLevel>)>,
    ms: Seq<MarketMapping>,
    mt: MarketType,
    line: i64,
    side: int,
) -> Option<PriceLevel>
    decreases ms.len(),
{
    if ms.len() == 0 {
        None
    } else if ms[0].market_type == mt && ms[0].line_milli == Some(line) && spec_side_best_in(
        bookv,
        outcome_mappings_view(ms[0].outcome_mappings@),
        side,
    ) is Some {
        spec_side_best_in(bookv, outcome_mappings_view(ms[0].outcome_mappings@), side)
    } else {
        spec_line_best(bookv, ms.drop_first(), mt, line, side)
    }
}

/// The integer encoding of a projected slot: the Monaco margin applied to
/// the best price, or zero for an empty slot.
pub open spec fn spec_slot_odds(best: Option<PriceLevel>) -> int {
    match best {
        Some(l) => crate::fair::spec_clamp_i32(spec_monaco_encode(l.price as int)),
        None => 0,
    }
}

/// The stake of a projected slot: the best level's liquidity, or zero.
pub open spec fn spec_slot_stake(best: Option<PriceLevel>) -> int {
    match best {
        Some(l) => l.liquidity as int,
        None => 0,
    }
}

/// Best level of the ladder stored for `id`, if the ladder is non-empty.
fn ladder_best(book: &OrderBook, id: &str) -> (r: Option<PriceLevel>)
    requires
        book_wf(book@),
    ensures
        match r {
            Some(l) => book_ladder(book@, id@).len() > 0 && l == book_ladder(book@, id@)[0],
            None => book_ladder(book@, id@).len() == 0,
        },
{
    match book.find_outcome_pub(id) {
        Some(i) => {
            proof {
                assert(book@[i as int] == (book.outcomes@[i as int].outcome_id@,
                book.outcomes@[i as int].levels@));
            }
            if book.outcomes[i].levels.len() > 0 {
                Some(book.outcomes[i].levels[0])
            } else {
                None
            }
        },
        None => None,
    }
}

/// First outcome pair of index parity `side` with a non-empty ladder.
fn side_best_in(book: &OrderBook, pairs: &Vec<(String, usize)>, side: usize) -> (r: Option<
    PriceLevel,
>)
    requires
        book_wf(book@),
        side < 2,
    ensures
        r == spec_side_best_in(book@, outcome_mappings_view(pairs@), side as int),
{
    let ghost pv = outcome_mappings_view(pairs@);
    proof {
        assert(pv.skip(0) =~= pv);
    }
    let n = pairs.len();
    let mut i: usize = 0;
    while i < n
        invariant
            0 <= i <= n == pairs@.len(),
            book_wf(book@),
            side < 2,
            pv == outcome_mappings_view(pairs@),
            spec_side_best_in(book@, pv, side as int) == spec_side_best_in(
                book@,
                pv.skip(i as int),
                side as int,
            ),
        decreases n - i,
    {
        proof {
            assert(pv.skip(i as int)[0] == pv[i as int]);
            assert(pv.skip(i as int).drop_first() =~= pv.skip(i as int + 1));
            assert(pv[i as int] == (pairs@[i as int].0@, pairs@[i as int].1 as int));
        }
        if pairs[i].1 % 2 == side {
            match ladder_best(book, pairs[i].0.as_str()) {
                Some(l) => {
                    return Some(l);
                },
                None => {},
            }
        }
        i = i + 1;
    }
    proof {
        assert(pv.skip(n as int) =~= Seq::<(Seq<char>, int)>::empty());
    }
    None
}

/// First outcome pair assigned exactly `idx` with a non-empty ladder.
fn index_best_in(book: &OrderBook, pairs: &Vec<(String, usize)>, idx: usize) -> (r: Option<
    PriceLevel,
>)
    requires
        book_wf(book@),
    ensures
        r == spec_index_best_in(book@, outcome_mappings_view(pairs@), idx as int),
{
    let ghost pv = outcome_mappings_view(pairs@);
    proof {
        assert(pv.skip(0) =~= pv);
    }
    let n = pairs.len();
    let mut i: usize = 0;
    while i < n
        invariant
            0 <= i <= n == pairs@.len(),
            book_wf(book@),
            pv == outcome_mappings_view(pairs@),
            spec_index_best_in(book@, pv, idx as int) == spec_index_best_in(
                book@,
                pv.skip(i as int),
                idx as int,
            ),
        decreases n - i,
    {
        proof {
            assert(pv.skip(i as int)[0] == pv[i as int]);
            assert(pv.skip(i as int).drop_first() =~= pv.skip(i as int + 1));
            assert(pv[i as int] == (pairs@[i as int].0@, pairs@[i as int].1 as int));
        }
        if pairs[i].1 == idx {
            match ladder_best(book, pairs[i].0.as_str()) {
                Some(l) => {
                    return Some(l);
                },
                None => {},
            }
        }
        i = i + 1;
    }
    proof {
        assert(pv.skip(n as int) =~= Seq::<(Seq<char>, int)>::empty());
    }
    None
}

/// Best level for one three-way slot across a fixture's mappings.
fn x12_best(book: &OrderBook, mappings: &Vec<MarketMapping>, idx: usize) -> (r: Option<
    PriceLevel,
>)
    requires
        book_wf(book@),
    ensures
        r == spec_x12_best(book@, mappings@, idx as int),
{
    proof {
        assert(mappings@.skip(0) =~= mappings@);
    }
    let n = mappings.len();
    let mut i: usize = 0;
    while i < n
        invariant
            0 <= i <= n == mappings@.len(),
            book_wf(book@),
            spec_x12_best(book@, mappings@, idx as int) == spec_x12_best(
                book@,
                mappings@.skip(i as int),
                idx as int,
            ),
        decreases n - i,
    {
        proof {
            assert(mappings@.skip(i as int)[0] == mappings@[i as int]);
            assert(mappings@.skip(i as int).drop_first() =~= mappings@.skip(i as int + 1));
        }
        if market_type_eq(mappings[i].market_type, MarketType::X12) {
            match index_best_in(book, &mappings[i].outcome_mappings, idx) {
                Some(l) => {
                    return Some(l);
                },
                None => {},
            }
        }
        i = i + 1;
    }
    proof {
        assert(mappings@.skip(n as int) =~= Seq::<MarketMapping>::empty());
    }
    None
}

/// Best level for one line slot across a fixture's mappings.
fn line_best(
    book: &OrderBook,
    mappings: &Vec<MarketMapping>,
    mt: MarketType,
    line: i64,
    side: usize,
) -> (r: Option<PriceLevel>)
    requires
        book_wf(book@),
        side < 2,
    ensures
        r == spec_line_best(book@, mappings@, mt, line, side as int),
{
    proof {
        assert(mappings@.skip(0) =~= mappings@);
    }
    let n = mappings.len();
    let mut i: usize = 0;
    while i < n
        invariant
            0 <= i <= n == mappings@.len(),
            book_wf(book@),
            side < 2,
            spec_line_best(book@, mappings@, mt, line, side as int) == spec_line_best(
                book@,
                mappings@.skip(i as int),
                mt,
                line,
                side as int,
            ),
        decreases n - i,
    {
        proof {
            assert(mappings@.skip(i as int)[0] == mappings@[i as int]);
            assert(mappings@.skip(i as int).drop_first() =~= mappings@.skip(i as int + 1));
        }
        let line_matches = match mappings[i].line_milli {
            Some(l) => l == line,
            None => false,
        };
        if market_type_eq(mappings[i].market_type, mt) && line_matches {
            match side_best_in(book, &mappings[i].outcome_mappings, side) {
                Some(l) => {
                    return Some(l);
                },
                None => {},
            }
        }
        i = i + 1;
    }
    proof {
        assert(mappings@.skip(n as int) =~= Seq::<MarketMapping>::empty());
    }
    None
}

/// Projects a three-way book into its canonical slots: for each of the
/// three outcome indices the margin-encoded best price and the raw best
/// liquidity, zero where no ladder quotes.
pub fn project_x12(book: &OrderBook, mappings: &Vec<MarketMapping>) -> (r: (Vec<i32>, Vec<i64>))
    requires
        book_wf(book@),
    ensures
        r.0@.len() == 3 && r.1@.len() == 3,
        forall|i: int|
            0 <= i < 3 ==> r.0@[i] == spec_slot_odds(spec_x12_best(book@, mappings@, i))
                && r.1@[i] == spec_slot_stake(spec_x12_best(book@, mappings@, i)),
{
    let mut odds: Vec<i32> = Vec::new();
    let mut stakes: Vec<i64> = Vec::new();
    let mut i: usize = 0;
    while i < 3
        invariant
            0 <= i <= 3,
            book_wf(book@),
            odds@.len() == i && stakes@.len() == i,
            forall|k: int|
                0 <= k < i ==> odds@[k] == spec_slot_odds(spec_x12_best(book@, mappings@, k))
                    && stakes@[k] == spec_slot_stake(spec_x12_best(book@, mappings@, k)),
        decreases 3 - i,
    {
        match x12_best(book, mappings, i) {
            Some(l) => {
                odds.push(encode_slot(l.price));
                stakes.push(l.liquidity);
            },
            None => {
                odds.push(0);
                stakes.push(0);
            },
        }
        i = i + 1;
    }
    (odds, stakes)
}

/// Projects a handicap or totals book onto the current line set: the four
/// vectors are aligned position-wise with `lines`, with a defined (possibly
/// zero) value at every position.
pub fn project_line_sides(
    book: &OrderBook,
    mappings: &Vec<MarketMapping>,
    mt: MarketType,
    lines: &Vec<i64>,
) -> (r: (Vec<i32>, Vec<i32>, Vec<i64>, Vec<i64>))
    requires
        book_wf(book@),
    ensures
        r.0@.len() == lines@.len() && r.1@.len() == lines@.len() && r.2@.len() == lines@.len()
            && r.3@.len() == lines@.len(),
        forall|k: int|
            0 <= k < lines@.len() ==> {
                &&& r.0@[k] == spec_slot_odds(spec_line_best(book@, mappings@, mt, lines@[k], 0))
                &&& r.1@[k] == spec_slot_odds(spec_line_best(book@, mappings@, mt, lines@[k], 1))
                &&& r.2@[k] == spec_slot_stake(spec_line_best(book@, mappings@, mt, lines@[k], 0))
                &&& r.3@[k] == spec_slot_stake(spec_line_best(book@, mappings@, mt, lines@[k], 1))
            },
{
    let mut home: Vec<i32> = Vec::new();
    let mut away: Vec<i32> = Vec::new();
    let mut hstake: Vec<i64> = Vec::new();
    let mut astake: Vec<i64> = Vec::new();
    let n = lines.len();
    let mut k: usize = 0;
    while k < n
        invariant
            0 <= k <= n == lines@.len(),
            book_wf(book@),
            home@.len() == k && away@.len() == k && hstake@.len() == k && astake@.len() == k,
            forall|t: int|
                0 <= t < k ==> {
                    &&& home@[t] == spec_slot_odds(
                        spec_line_best(book@, mappings@, mt, lines@[t], 0),
                    )
                    &&& away@[t] == spec_slot_odds(
                        spec_line_best(book@, mappings@, mt, lines@[t], 1),
                    )
                    &&& hstake@[t] == spec_slot_stake(
                        spec_line_best(book@, mappings@, mt, lines@[t], 0),
                    )
                    &&& astake@[t] == spec_slot_stake(
                        spec_line_best(book@, mappings@, mt, lines@[t], 1),
                    )
                },
        decreases n - k,
    {
        let line = lines[k];
        match line_best(book, mappings, mt, line, 0) {
            Some(l) => {
                home.push(encode_slot(l.price));
                hstake.push(l.liquidity);
            },
            None => {
                home.push(0);
                hstake.push(0);
            },
        }
        match line_best(book, mappings, mt, line, 1) {
            Some(l) => {
                away.push(encode_slot(l.price));
                astake.push(l.liquidity);
            },
            None => {
                away.push(0);
                astake.push(0);
            },
        }
        k = k + 1;
    }
    (home, away, hstake, astake)
}

/// Applies the Monaco margin to a best price and saturates to `i32`.
fn encode_slot(price: i64) -> (r: i32)
    ensures
        r == crate::fair::spec_clamp_i32(spec_monaco_encode(price as int)),
{
    let e = monaco_encode(price);
    if e > 0x7fff_ffff {
        0x7fff_ffff
    } else if e < -0x8000_0000 {
        -0x8000_0000
    } else {
        e as i32
    }
}


/// The outcome identifiers of the book that the mapping knows, in book
/// order.
pub open spec fn spec_mapped_ids(
    bookv: Seq<(Seq<char>, Seq<PriceLevel>)>,
    pairs: Seq<(Seq<char>, int)>,
) -> Seq<Seq<char>>
    decreases bookv.len(),
{
    if bookv.len() == 0 {
        Seq::empty()
    } else {
        let rest = spec_mapped_ids(bookv.drop_last(), pairs);
        if spec_pairs_have(pairs, bookv.last().0) {
            rest.push(bookv.last().0)
        } else {
            rest
        }
    }
}

/// The mapping assigns an index to `id`.
pub open spec fn spec_pairs_have(pairs: Seq<(Seq<char>, int)>, id: Seq<char>) -> bool {
    exists|i: int| 0 <= i < pairs.len() && pairs[i].0 == id
}

/// Whether the mapping assigns an index to `id`.
fn pairs_have(pairs: &Vec<(String, usize)>, id: &str) -> (r: bool)
    ensures
        r == spec_pairs_have(outcome_mappings_view(pairs@), id@),
{
    let n = pairs.len();
    let mut i: usize = 0;
    while i < n
        invariant
            0 <= i <= n == pairs@.len(),
            forall|k: int| 0 <= k < i ==> outcome_mappings_view(pairs@)[k].0 != id@,
        decreases n - i,
    {
        proof {
            assert(outcome_mappings_view(pairs@)[i as int] == (pairs@[i as int].0@,
            pairs@[i as int].1 as int));
        }
        if str_eq(pairs[i].0.as_str(), id) {
            proof {
                assert(spec_pairs_have(outcome_mappings_view(pairs@), id@)) by {
                    assert(outcome_mappings_view(pairs@)[i as int].0 == id@);
                }
            }
            return true;
        }
        i = i + 1;
    }
    false
}

/// Builds the `ids` column entry of a Monaco update: the book's outcome
/// identifiers known to the mapping, under the market-type key; nothing
/// when the book holds none of them.
pub fn build_monaco_ids(
    timestamp: i64,
    mapping: &MarketMapping,
    book: &OrderBook,
) -> (r: Option<crate::record::IdsEntry>)
    requires
        book_wf(book@),
    ensures
        ({
            let ids = spec_mapped_ids(book@, outcome_mappings_view(mapping.outcome_mappings@));
            match r {
                Some(e) => ids.len() > 0 && e.t == timestamp && e.line_id is None && ({
                    let lst = match mapping.market_type {
                        MarketType::X12 => e.line_ids.x12@,
                        MarketType::Ah => e.line_ids.ah@,
                        MarketType::Ou => e.line_ids.ou@,
                    };
                    lst.map_values(|s: String| s@) == ids
                }),
                None => ids.len() == 0,
            }
        }),
{
    let ghost pv = outcome_mappings_view(mapping.outcome_mappings@);
    let mut found: Vec<String> = Vec::new();
    let n = book.outcomes.len();
    let mut i: usize = 0;
    while i < n
        invariant
            0 <= i <= n == book.outcomes@.len(),
            n == book@.len(),
            pv == outcome_mappings_view(mapping.outcome_mappings@),
            found@.map_values(|s: String| s@) == spec_mapped_ids(book@.take(i as int), pv),
        decreases n - i,
    {
        proof {
            assert(book@[i as int] == (book.outcomes@[i as int].outcome_id@,
            book.outcomes@[i as int].levels@));
            assert(book@.take(i as int + 1).drop_last() =~= book@.take(i as int));
            assert(book@.take(i as int + 1).last() == book@[i as int]);
        }
        if pairs_have(&mapping.outcome_mappings, book.outcomes[i].outcome_id.as_str()) {
            found.push(book.outcomes[i].outcome_id.clone());
            proof {
                assert(found@.map_values(|s: String| s@) =~= spec_mapped_ids(
                    book@.take(i as int + 1),
                    pv,
                ));
            }
        } else {
            proof {
                assert(found@.map_values(|s: String| s@) =~= spec_mapped_ids(
                    book@.take(i as int + 1),
                    pv,
                ));
            }
        }
        i = i + 1;
    }
    proof {
        assert(book@.take(n as int) =~= book@);
    }
    if found.len() == 0 {
        return None;
    }
    let empty1: Vec<String> = Vec::new();
    let empty2: Vec<String> = Vec::new();
    let line_ids = match mapping.market_type {
        MarketType::X12 => crate::record::LineIds { x12: found, ah: empty1, ou: empty2 },
        MarketType::Ah => crate::record::LineIds { x12: empty1, ah: found, ou: empty2 },
        MarketType::Ou => crate::record::LineIds { x12: empty1, ah: empty2, ou: found },
    };
    Some(crate::record::IdsEntry { t: timestamp, line_id: None, line_ids })
}

/// Builds the `max_stakes` entry of a Monaco update from the best-level
/// liquidities of the updated market.
pub fn build_monaco_max_stakes(
    timestamp: i64,
    mapping: &MarketMapping,
    book: &OrderBook,
) -> (r: crate::record::MaxStakesEntry)
    requires
        book_wf(book@),
    ensures
        r.t == timestamp,
        ({
            let pv = outcome_mappings_view(mapping.outcome_mappings@);
            match mapping.market_type {
                MarketType::X12 => r.max_stake_ah is None && r.max_stake_ou is None && (
                r.max_stake_x12 matches Some(v) && v@.len() == 3 && forall|i: int|
                    0 <= i < 3 ==> v@[i] == spec_slot_stake(spec_index_best_in(book@, pv, i))),
                MarketType::Ah => r.max_stake_x12 is None && r.max_stake_ou is None && (
                r.max_stake_ah matches Some(s) && spec_stake_side_ok(book@, pv, s)),
                MarketType::Ou => r.max_stake_x12 is None && r.max_stake_ah is None && (
                r.max_stake_ou matches Some(s) && spec_stake_side_ok(book@, pv, s)),
            }
        }),
{
    match mapping.market_type {
        MarketType::X12 => {
            let mut stakes: Vec<i64> = Vec::new();
            let mut i: usize = 0;
            while i < 3
                invariant
                    0 <= i <= 3,
                    book_wf(book@),
                    stakes@.len() == i,
                    forall|k: int|
                        0 <= k < i ==> stakes@[k] == spec_slot_stake(
                            spec_index_best_in(
                                book@,
                                outcome_mappings_view(mapping.outcome_mappings@),
                                k,
                            ),
                        ),
                decreases 3 - i,
            {
                match index_best_in(book, &mapping.outcome_mappings, i) {
                    Some(l) => stakes.push(l.liquidity),
                    None => stakes.push(0),
                }
                i = i + 1;
            }
            crate::record::MaxStakesEntry {
                t: timestamp,
                max_stake_x12: Some(stakes),
                max_stake_ah: None,
                max_stake_ou: None,
            }
        },
        MarketType::Ah => {
            let s = build_side_stakes(book, &mapping.outcome_mappings);
            crate::record::MaxStakesEntry {
                t: timestamp,
                max_stake_x12: None,
                max_stake_ah: Some(s),
                max_stake_ou: None,
            }
        },
        MarketType::Ou => {
            let s = build_side_stakes(book, &mapping.outcome_mappings);
            crate::record::MaxStakesEntry {
                t: timestamp,
                max_stake_x12: None,
                max_stake_ah: None,
                max_stake_ou: Some(s),
            }
        },
    }
}

/// The two stake lists of a two-sided market: one element with the best
/// level's liquidity per quoted side, empty where nothing quotes.
pub open spec fn spec_stake_side_ok(
    bookv: Seq<(Seq<char>, Seq<PriceLevel>)>,
    pv: Seq<(Seq<char>, int)>,
    s: crate::record::MaxStakeAhOu,
) -> bool {
    &&& (match spec_side_best_in(bookv, pv, 0) {
        Some(l) => s.h@ == seq![l.liquidity],
        None => s.h@.len() == 0,
    })
    &&& (match spec_side_best_in(bookv, pv, 1) {
        Some(l) => s.a@ == seq![l.liquidity],
        None => s.a@.len() == 0,
    })
}

/// Builds the per-side stake lists of a two-sided market.
fn build_side_stakes(book: &OrderBook, pairs: &Vec<(String, usize)>) -> (r:
    crate::record::MaxStakeAhOu)
    requires
        book_wf(book@),
    ensures
        spec_stake_side_ok(book@, outcome_mappings_view(pairs@), r),
{
    let mut h: Vec<i64> = Vec::new();
    let mut a: Vec<i64> = Vec::new();
    match side_best_in(book, pairs, 0) {
        Some(l) => {
            h.push(l.liquidity);
            proof {
                assert(h@ =~= seq![l.liquidity]);
            }
        },
        None => {},
    }
    match side_best_in(book, pairs, 1) {
        Some(l) => {
            a.push(l.liquidity);
            proof {
                assert(a@ =~= seq![l.liquidity]);
            }
        },
        None => {},
    }
    crate::record::MaxStakeAhOu { h, a }
}

/// The `latest_t` entry of a Monaco update: the updated market's odds
/// column, plus the line, identifier and stake columns rewritten with
/// every update.
pub open spec fn spec_monaco_latest_t(timestamp: i64, market_type: MarketType) -> crate::record::LatestT {
    crate::record::LatestT {
        x12_ts: if market_type == MarketType::X12 {
            Some(timestamp)
        } else {
            None
        },
        ah_ts: if market_type == MarketType::Ah {
            Some(timestamp)
        } else {
            None
        },
        ou_ts: if market_type == MarketType::Ou {
            Some(timestamp)
        } else {
            None
        },
        lines_ts: if market_type == MarketType::X12 {
            None
        } else {
            Some(timestamp)
        },
        ids_ts: Some(timestamp),
        stakes_ts: Some(timestamp),
    }
}

/// Builds the `latest_t` entry of a Monaco update.
pub fn build_latest_t(timestamp: i64, market_type: MarketType) -> (r: crate::record::LatestT)
    ensures
        r == spec_monaco_latest_t(timestamp, market_type),
{
    match market_type {
        MarketType::X12 => crate::record::LatestT {
            x12_ts: Some(timestamp),
            ah_ts: None,
            ou_ts: None,
            lines_ts: None,
            ids_ts: Some(timestamp),
            stakes_ts: Some(timestamp),
        },
        MarketType::Ah => crate::record::LatestT {
            x12_ts: None,
            ah_ts: Some(timestamp),
            ou_ts: None,
            lines_ts: Some(timestamp),
            ids_ts: Some(timestamp),
            stakes_ts: Some(timestamp),
        },
        MarketType::Ou => crate::record::LatestT {
            x12_ts: None,
            ah_ts: None,
            ou_ts: Some(timestamp),
            lines_ts: Some(timestamp),
            ids_ts: Some(timestamp),
            stakes_ts: Some(timestamp),
        },
    }
}

/// Builds the normalized update that one Monaco price message yields: the
/// updated market's odds column projected from the book snapshot, with the
/// identifier, stake and last-write columns.  A handicap or totals market
/// without a resolved line contributes no odds column.
pub fn build_odds_update(
    fixture_id: i64,
    mapping: &MarketMapping,
    book: &OrderBook,
    timestamp: i64,
    start: i64,
) -> (r: crate::update::OddsUpdate)
    requires
        book_wf(book@),
    ensures
        r.fixture_id == fixture_id && r.bookie_id == 1 && r.bookmaker@ == "Monaco"@,
        r.timestamp == timestamp && r.start == start && r.decimals == 3,
        ({
            let ids = spec_mapped_ids(book@, outcome_mappings_view(mapping.outcome_mappings@));
            match r.ids {
                Some(e) => ids.len() > 0 && e.t == timestamp && e.line_id is None && ({
                    let lst = match mapping.market_type {
                        MarketType::X12 => e.line_ids.x12@,
                        MarketType::Ah => e.line_ids.ah@,
                        MarketType::Ou => e.line_ids.ou@,
                    };
                    lst.map_values(|s: String| s@) == ids
                }),
                None => ids.len() == 0,
            }
        }),
        (r.max_stakes matches Some(e) && e.t == timestamp && (match mapping.market_type {
            MarketType::X12 => e.max_stake_ah is None && e.max_stake_ou is None && (
            e.max_stake_x12 matches Some(v) && v@.len() == 3 && (forall|i: int|
                0 <= i < 3 ==> v@[i] == spec_slot_stake(
                    spec_index_best_in(
                        book@,
                        outcome_mappings_view(mapping.outcome_mappings@),
                        i,
                    ),
                ))),
            MarketType::Ah => e.max_stake_x12 is None && e.max_stake_ou is None && (
            e.max_stake_ah matches Some(st) && spec_stake_side_ok(
                book@,
                outcome_mappings_view(mapping.outcome_mappings@),
                st,
            )),
            MarketType::Ou => e.max_stake_x12 is None && e.max_stake_ah is None && (
            e.max_stake_ou matches Some(st) && spec_stake_side_ok(
                book@,
                outcome_mappings_view(mapping.outcome_mappings@),
                st,
            )),
        })),
        r.latest_t matches Some(lt) && lt == spec_monaco_latest_t(
            timestamp,
            mapping.market_type,
        ),
        ({
            let pv = outcome_mappings_view(mapping.outcome_mappings@);
            match mapping.market_type {
                MarketType::X12 => r.x12 matches Some(v) && v@.len() == 3 && (forall|i: int|
                    0 <= i < 3 ==> v@[i] == spec_slot_odds(spec_index_best_in(book@, pv, i)))
                    && r.ah_lines is None && r.ou_lines is None,
                MarketType::Ah => r.x12 is None && r.ou_lines is None && (match mapping.line_milli {
                    Some(line) => {
                        &&& r.ah_lines matches Some(ls) && ls@ == seq![line]
                        &&& r.ah_h matches Some(h) && h@ == seq![
                            spec_slot_odds(spec_side_best_in(book@, pv, 0)) as i32,
                        ]
                        &&& r.ah_a matches Some(a) && a@ == seq![
                            spec_slot_odds(spec_side_best_in(book@, pv, 1)) as i32,
                        ]
                    },
                    None => r.ah_lines is None && r.ah_h is None && r.ah_a is None,
                }),
                MarketType::Ou => r.x12 is None && r.ah_lines is None && (match mapping.line_milli {
                    Some(line) => {
                        &&& r.ou_lines matches Some(ls) && ls@ == seq![line]
                        &&& r.ou_o matches Some(o) && o@ == seq![
                            spec_slot_odds(spec_side_best_in(book@, pv, 0)) as i32,
                        ]
                        &&& r.ou_u matches Some(u) && u@ == seq![
                            spec_slot_odds(spec_side_best_in(book@, pv, 1)) as i32,
                        ]
                    },
                    None => r.ou_lines is None && r.ou_o is None && r.ou_u is None,
                }),
            }
        }),
{
    let ids = build_monaco_ids(timestamp, mapping, book);
    let max_stakes = Some(build_monaco_max_stakes(timestamp, mapping, book));
    let latest_t = Some(build_latest_t(timestamp, mapping.market_type));
    let mut update = crate::update::OddsUpdate {
        fixture_id,
        bookie_id: 1,
        bookmaker: monaco_label(),
        timestamp,
        start,
        decimals: 3,
        x12: None,
        ah_lines: None,
        ah_h: None,
        ah_a: None,
        ou_lines: None,
        ou_o: None,
        ou_u: None,
        ids,
        max_stakes,
        latest_t,
    };
    match mapping.market_type {
        MarketType::X12 => {
            let mut odds: Vec<i32> = Vec::new();
            let mut i: usize = 0;
            while i < 3
                invariant
                    0 <= i <= 3,
                    book_wf(book@),
                    odds@.len() == i,
                    forall|k: int|
                        0 <= k < i ==> odds@[k] == spec_slot_odds(
                            spec_index_best_in(
                                book@,
                                outcome_mappings_view(mapping.outcome_mappings@),
                                k,
                            ),
                        ),
                decreases 3 - i,
            {
                match index_best_in(book, &mapping.outcome_mappings, i) {
                    Some(l) => odds.push(encode_slot(l.price)),
                    None => odds.push(0),
                }
                i = i + 1;
            }
            update.x12 = Some(odds);
        },
        MarketType::Ah => {
            match mapping.line_milli {
                Some(line) => {
                    let mut lines: Vec<i64> = Vec::new();
                    lines.push(line);
                    let mut hv: Vec<i32> = Vec::new();
                    let mut av: Vec<i32> = Vec::new();
                    match side_best_in(book, &mapping.outcome_mappings, 0) {
                        Some(l) => hv.push(encode_slot(l.price)),
                        None => hv.push(0),
                    }
                    match side_best_in(book, &mapping.outcome_mappings, 1) {
                        Some(l) => av.push(encode_slot(l.price)),
                        None => av.push(0),
                    }
                    proof {
                        assert(lines@ =~= seq![line]);
                        assert(hv@ =~= seq![hv@[0]]);
                        assert(av@ =~= seq![av@[0]]);
                    }
                    update.ah_lines = Some(lines);
                    update.ah_h = Some(hv);
                    update.ah_a = Some(av);
                },
                None => {},
            }
        },
        MarketType::Ou => {
            match mapping.line_milli {
                Some(line) => {
                    let mut lines: Vec<i64> = Vec::new();
                    lines.push(line);
                    let mut ov: Vec<i32> = Vec::new();
                    let mut uv: Vec<i32> = Vec::new();
                    match side_best_in(book, &mapping.outcome_mappings, 0) {
                        Some(l) => ov.push(encode_slot(l.price)),
                        None => ov.push(0),
                    }
                    match side_best_in(book, &mapping.outcome_mappings, 1) {
                        Some(l) => uv.push(encode_slot(l.price)),
                        None => uv.push(0),
                    }
                    proof {
                        assert(lines@ =~= seq![line]);
                        assert(ov@ =~= seq![ov@[0]]);
                        assert(uv@ =~= seq![uv@[0]]);
                    }
                    update.ou_lines = Some(lines);
                    update.ou_o = Some(ov);
                    update.ou_u = Some(uv);
                },
                None => {},
            }
        },
    }
    update
}

/// The Monaco bookmaker label.
fn monaco_label() -> (r: String)
    ensures
        r@ == "Monaco"@,
{
    "Monaco".to_owned()
}

} // verus!
verus! {

/// The persisted Monaco columns of one fixture: the time-ordered odds
/// columns, the line and stake columns (single-shot for stakes), and the
/// last-write times.
#[derive(Debug)]
pub struct MonacoRecord {
    pub odds_x12: Vec<crate::record::OddsRow>,
    pub odds_ah: Vec<crate::record::OddsRow>,
    pub odds_ou: Vec<crate::record::OddsRow>,
    pub lines: Vec<crate::record::LinesEntry>,
    pub max_stakes: Vec<crate::record::MaxStakesEntry>,
    pub latest_t: crate::record::LatestT,
}

/// Every odds column sorted by timestamp.
pub open spec fn monaco_record_wf(r: MonacoRecord) -> bool {
    &&& crate::record::rows_sorted(r.odds_x12@)
    &&& crate::record::rows_sorted(r.odds_ah@)
    &&& crate::record::rows_sorted(r.odds_ou@)
}

impl MonacoRecord {
    /// An empty record.
    pub fn new() -> (r: MonacoRecord)
        ensures
            monaco_record_wf(r),
            r.odds_x12@.len() == 0 && r.odds_ah@.len() == 0 && r.odds_ou@.len() == 0,
            r.lines@.len() == 0 && r.max_stakes@.len() == 0,
    {
        MonacoRecord {
            odds_x12: Vec::new(),
            odds_ah: Vec::new(),
            odds_ou: Vec::new(),
            lines: Vec::new(),
            max_stakes: Vec::new(),
            latest_t: crate::record::LatestT {
                x12_ts: None,
                ah_ts: None,
                ou_ts: None,
                lines_ts: None,
                ids_ts: None,
                stakes_ts: None,
            },
        }
    }

    /// The line set currently active for a market type: the one of the
    /// latest lines entry.
    pub fn current_lines(&self, market_type: MarketType) -> (r: Vec<i64>)
        ensures
            r@ == spec_current_lines(*self, market_type),
    {
        if self.lines.len() == 0 {
            proof {
                assert(Seq::<i64>::empty() =~= spec_current_lines(*self, market_type));
            }
            return Vec::new();
        }
        let last = self.lines.len() - 1;
        let entry = &self.lines[last];
        let src = match market_type {
            MarketType::Ah => &entry.ah,
            _ => &entry.ou,
        };
        match src {
            Some(v) => {
                let mut r: Vec<i64> = Vec::new();
                let n = v.len();
                let mut i: usize = 0;
                while i < n
                    invariant
                        0 <= i <= n == v@.len(),
                        r@ =~= v@.take(i as int),
                    decreases n - i,
                {
                    r.push(v[i]);
                    proof {
                        assert(r@ =~= v@.take(i as int + 1));
                    }
                    i = i + 1;
                }
                proof {
                    assert(v@.take(n as int) =~= v@);
                }
                r
            },
            None => Vec::new(),
        }
    }

    /// The stake entry written for one projected market.
    pub open spec fn spec_stakes_written(
        e: crate::record::MaxStakesEntry,
        market_type: MarketType,
        bookv: Seq<(Seq<char>, Seq<PriceLevel>)>,
        ms: Seq<MarketMapping>,
        lines: Seq<i64>,
        timestamp: i64,
    ) -> bool {
        &&& e.t == timestamp
        &&& (match market_type {
            MarketType::X12 => e.max_stake_ah is None && e.max_stake_ou is None && (
            e.max_stake_x12 matches Some(st) && st@.len() == 3 && (forall|i: int|
                0 <= i < 3 ==> st@[i] == spec_slot_stake(spec_x12_best(bookv, ms, i)))),
            MarketType::Ah => e.max_stake_x12 is None && e.max_stake_ou is None && (
            e.max_stake_ah matches Some(st) && st.h@.len() == lines.len() && st.a@.len()
                == lines.len() && (forall|k: int|
                0 <= k < lines.len() ==> st.h@[k] == spec_slot_stake(
                    spec_line_best(bookv, ms, MarketType::Ah, lines[k], 0),
                ) && st.a@[k] == spec_slot_stake(
                    spec_line_best(bookv, ms, MarketType::Ah, lines[k], 1),
                ))),
            MarketType::Ou => e.max_stake_x12 is None && e.max_stake_ah is None && (
            e.max_stake_ou matches Some(st) && st.h@.len() == lines.len() && st.a@.len()
                == lines.len() && (forall|k: int|
                0 <= k < lines.len() ==> st.h@[k] == spec_slot_stake(
                    spec_line_best(bookv, ms, MarketType::Ou, lines[k], 0),
                ) && st.a@[k] == spec_slot_stake(
                    spec_line_best(bookv, ms, MarketType::Ou, lines[k], 1),
                ))),
        })
    }

    /// Merges one book snapshot into the record: the market type's odds
    /// column gains (or replaces) the row projected at `timestamp` over the
    /// current line set, the stake column is overwritten with the fresh
    /// liquidity, and the last-write times advance.
    pub fn apply_best_prices(
        &mut self,
        market_type: MarketType,
        book: &OrderBook,
        mappings: &Vec<MarketMapping>,
        timestamp: i64,
    )
        requires
            monaco_record_wf(*old(self)),
            book_wf(book@),
        ensures
            monaco_record_wf(*final(self)),
            final(self).max_stakes@.len() == 1,
            Self::spec_stakes_written(
                final(self).max_stakes@[0],
                market_type,
                book@,
                mappings@,
                spec_current_lines(*old(self), market_type),
                timestamp,
            ),
            final(self).latest_t.stakes_ts == Some(timestamp),
            final(self).lines@ == old(self).lines@,
            market_type == MarketType::X12 ==> {
                let rows = final(self).odds_x12@;
                &&& rows == crate::record::spec_merge_row(
                    old(self).odds_x12@,
                    rows[crate::record::rows_index_of(rows, timestamp)],
                )
                &&& crate::record::rows_have_t(rows, timestamp)
                &&& ({
                    let row = rows[crate::record::rows_index_of(rows, timestamp)];
                    &&& row.t == timestamp
                    &&& row.x12 matches Some(v) && v@.len() == 3 && (forall|i: int|
                        0 <= i < 3 ==> v@[i] == spec_slot_odds(
                            spec_x12_best(book@, mappings@, i),
                        ))
                })
                &&& final(self).latest_t.x12_ts == Some(timestamp)
                &&& final(self).odds_ah@ == old(self).odds_ah@
                &&& final(self).odds_ou@ == old(self).odds_ou@
            },
            market_type == MarketType::Ah ==> {
                let rows = final(self).odds_ah@;
                let lines = spec_current_lines(*old(self), MarketType::Ah);
                &&& rows == crate::record::spec_merge_row(
                    old(self).odds_ah@,
                    rows[crate::record::rows_index_of(rows, timestamp)],
                )
                &&& crate::record::rows_have_t(rows, timestamp)
                &&& ({
                    let row = rows[crate::record::rows_index_of(rows, timestamp)];
                    &&& row.t == timestamp
                    &&& row.ah_h matches Some(h) && h@.len() == lines.len() && (forall|k: int|
                        0 <= k < lines.len() ==> h@[k] == spec_slot_odds(
                            spec_line_best(book@, mappings@, MarketType::Ah, lines[k], 0),
                        ))
                    &&& row.ah_a matches Some(a) && a@.len() == lines.len() && (forall|k: int|
                        0 <= k < lines.len() ==> a@[k] == spec_slot_odds(
                            spec_line_best(book@, mappings@, MarketType::Ah, lines[k], 1),
                        ))
                    &&& row.x12 is None && row.ou_o is None && row.ou_u is None
                })
                &&& final(self).latest_t.ah_ts == Some(timestamp)
                &&& final(self).odds_x12@ == old(self).odds_x12@
                &&& final(self).odds_ou@ == old(self).odds_ou@
            },
            market_type == MarketType::Ou ==> {
                let rows = final(self).odds_ou@;
                let lines = spec_current_lines(*old(self), MarketType::Ou);
                &&& rows == crate::record::spec_merge_row(
                    old(self).odds_ou@,
                    rows[crate::record::rows_index_of(rows, timestamp)],
                )
                &&& crate::record::rows_have_t(rows, timestamp)
                &&& ({
                    let row = rows[crate::record::rows_index_of(rows, timestamp)];
                    &&& row.t == timestamp
                    &&& row.ou_o matches Some(o) && o@.len() == lines.len() && (forall|k: int|
                        0 <= k < lines.len() ==> o@[k] == spec_slot_odds(
                            spec_line_best(book@, mappings@, MarketType::Ou, lines[k], 0),
                        ))
                    &&& row.ou_u matches Some(u) && u@.len() == lines.len() && (forall|k: int|
                        0 <= k < lines.len() ==> u@[k] == spec_slot_odds(
                            spec_line_best(book@, mappings@, MarketType::Ou, lines[k], 1),
                        ))
                    &&& row.x12 is None && row.ah_h is None && row.ah_a is None
                })
                &&& final(self).latest_t.ou_ts == Some(timestamp)
                &&& final(self).odds_x12@ == old(self).odds_x12@
                &&& final(self).odds_ah@ == old(self).odds_ah@
            },
    {
        match market_type {
            MarketType::X12 => {
                let (odds, stakes) = project_x12(book, mappings);
                let row = crate::record::OddsRow {
                    t: timestamp,
                    x12: Some(odds),
                    ah_h: None,
                    ah_a: None,
                    ou_o: None,
                    ou_u: None,
                };
                let ghost row_g = row;
                crate::record::merge_odds_entry(&mut self.odds_x12, row);
                proof {
                    crate::record::lemma_merge_result(old(self).odds_x12@, row_g);
                }
                self.latest_t.x12_ts = Some(timestamp);
                let entry = crate::record::MaxStakesEntry {
                    t: timestamp,
                    max_stake_x12: Some(stakes),
                    max_stake_ah: None,
                    max_stake_ou: None,
                };
                self.overwrite_stakes(entry);
            },
            MarketType::Ah => {
                let lines = self.current_lines(MarketType::Ah);
                let (home, away, hstake, astake) = project_line_sides(
                    book,
                    mappings,
                    MarketType::Ah,
                    &lines,
                );
                let row = crate::record::OddsRow {
                    t: timestamp,
                    x12: None,
                    ah_h: Some(home),
                    ah_a: Some(away),
                    ou_o: None,
                    ou_u: None,
                };
                let ghost row_g = row;
                crate::record::merge_odds_entry(&mut self.odds_ah, row);
                proof {
                    crate::record::lemma_merge_result(old(self).odds_ah@, row_g);
                }
                self.latest_t.ah_ts = Some(timestamp);
                let entry = crate::record::MaxStakesEntry {
                    t: timestamp,
                    max_stake_x12: None,
                    max_stake_ah: Some(
                        crate::record::MaxStakeAhOu { h: hstake, a: astake },
                    ),
                    max_stake_ou: None,
                };
                self.overwrite_stakes(entry);
            },
            MarketType::Ou => {
                let lines = self.current_lines(MarketType::Ou);
                let (over, under, ostake, ustake) = project_line_sides(
                    book,
                    mappings,
                    MarketType::Ou,
                    &lines,
                );
                let row = crate::record::OddsRow {
                    t: timestamp,
                    x12: None,
                    ah_h: None,
                    ah_a: None,
                    ou_o: Some(over),
                    ou_u: Some(under),
                };
                let ghost row_g = row;
                crate::record::merge_odds_entry(&mut self.odds_ou, row);
                proof {
                    crate::record::lemma_merge_result(old(self).odds_ou@, row_g);
                }
                self.latest_t.ou_ts = Some(timestamp);
                let entry = crate::record::MaxStakesEntry {
                    t: timestamp,
                    max_stake_x12: None,
                    max_stake_ah: None,
                    max_stake_ou: Some(
                        crate::record::MaxStakeAhOu { h: ostake, a: ustake },
                    ),
                };
                self.overwrite_stakes(entry);
            },
        }
    }

    /// Overwrites the single-entry stake column: only current liquidity is
    /// retained.
    fn overwrite_stakes(&mut self, entry: crate::record::MaxStakesEntry)
        ensures
            final(self).max_stakes@.len() == 1,
            final(self).max_stakes@[0] == entry,
            final(self).latest_t.stakes_ts == Some(entry.t),
            final(self).odds_x12@ == old(self).odds_x12@,
            final(self).odds_ah@ == old(self).odds_ah@,
            final(self).odds_ou@ == old(self).odds_ou@,
            final(self).lines@ == old(self).lines@,
            final(self).latest_t.x12_ts == old(self).latest_t.x12_ts,
            final(self).latest_t.ah_ts == old(self).latest_t.ah_ts,
            final(self).latest_t.ou_ts == old(self).latest_t.ou_ts,
            final(self).latest_t.lines_ts == old(self).latest_t.lines_ts,
    {
        let t = entry.t;
        self.max_stakes.clear();
        self.max_stakes.push(entry);
        self.latest_t.stakes_ts = Some(t);
    }
}

/// The line vector of an optional lines column, empty when absent.
pub open spec fn spec_opt_lines(v: Option<Vec<i64>>) -> Seq<i64> {
    match v {
        Some(x) => x@,
        None => Seq::empty(),
    }
}

/// The line set currently active for a market type: that of the latest
/// lines entry, empty when the record has none.
pub open spec fn spec_current_lines(r: MonacoRecord, market_type: MarketType) -> Seq<i64> {
    if r.lines@.len() == 0 {
        Seq::empty()
    } else {
        match market_type {
            MarketType::Ah => spec_opt_lines(r.lines@.last().ah),
            _ => spec_opt_lines(r.lines@.last().ou),
        }
    }
}

} // verus!
verus! {

/// One handicap or totals market reduced to its line: the line value, the
/// market's outcome identifiers in listing order, and the summed
/// `"Against"` liquidity of each side.
#[derive(Debug, Clone)]
pub struct LineSlot {
    pub line: i64,
    pub ids: Vec<String>,
    pub h_stake: i64,
    pub a_stake: i64,
}

/// First position of `id` among outcome identifiers, or the length.
pub open spec fn spec_id_pos(ids: Seq<String>, id: Seq<char>) -> int
    decreases ids.len(),
{
    if ids.len() == 0 {
        0
    } else if ids[0]@ == id {
        0
    } else {
        1 + spec_id_pos(ids.drop_first(), id)
    }
}

/// Summed `"Against"` liquidity of the side with the given index parity,
/// over the first `n` price records.
pub open spec fn spec_side_sum(
    prices: Seq<MonacoPrice>,
    ids: Seq<String>,
    parity: int,
    n: int,
) -> int
    decreases n,
{
    if n <= 0 || n > prices.len() {
        0
    } else {
        let rest = spec_side_sum(prices, ids, parity, n - 1);
        let p = prices[n - 1];
        let pos = spec_id_pos(ids, p.outcome_id@);
        if p.side@ == "Against"@ && pos < ids.len() && pos % 2 == parity {
            rest + p.liquidity
        } else {
            rest
        }
    }
}

/// The scan position of the first matching identifier equals
/// `spec_id_pos`.
proof fn lemma_id_pos(ids: Seq<String>, id: Seq<char>, i: int)
    requires
        0 <= i <= ids.len(),
        forall|k: int| 0 <= k < i ==> ids[k]@ != id,
        i < ids.len() ==> ids[i]@ == id,
    ensures
        spec_id_pos(ids, id) == i,
    decreases ids.len(),
{
    if ids.len() > 0 {
        if i == 0 {
        } else {
            let t = ids.drop_first();
            assert(forall|k: int| 0 <= k < i - 1 ==> t[k] == ids[k + 1] && t[k]@ != id);
            assert(i - 1 < t.len() ==> t[i - 1] == ids[i]);
            lemma_id_pos(t, id, i - 1);
        }
    }
}

/// Position of `id` in the outcome list.
fn id_pos(ids: &Vec<String>, id: &str) -> (r: usize)
    ensures
        r == spec_id_pos(ids@, id@),
        r <= ids@.len(),
{
    let n = ids.len();
    let mut i: usize = 0;
    while i < n
        invariant
            0 <= i <= n == ids@.len(),
            forall|k: int| 0 <= k < i ==> ids@[k]@ != id@,
        decreases n - i,
    {
        if str_eq(ids[i].as_str(), id) {
            proof {
                lemma_id_pos(ids@, id@, i as int);
            }
            return i;
        }
        i = i + 1;
    }
    proof {
        lemma_id_pos(ids@, id@, n as int);
    }
    n
}

/// Sums one side's `"Against"` liquidity over a market's price records.
fn side_sum(prices: &Vec<MonacoPrice>, ids: &Vec<String>, parity: usize) -> (r: i64)
    requires
        parity < 2,
        prices@.len() <= 4096,
        forall|k: int|
            0 <= k < prices@.len() ==> 0 <= (#[trigger] prices@[k]).liquidity
                <= 0x100_0000_0000,
    ensures
        r == spec_side_sum(prices@, ids@, parity as int, prices@.len() as int),
{
    let mut acc: i64 = 0;
    let n = prices.len();
    let mut i: usize = 0;
    while i < n
        invariant
            0 <= i <= n == prices@.len(),
            n <= 4096,
            parity < 2,
            forall|k: int|
                0 <= k < prices@.len() ==> 0 <= (#[trigger] prices@[k]).liquidity
                    <= 0x100_0000_0000,
            acc == spec_side_sum(prices@, ids@, parity as int, i as int),
            0 <= acc <= i * 0x100_0000_0000,
        decreases n - i,
    {
        let p = &prices[i];
        if str_eq(p.side.as_str(), "Against") {
            let pos = id_pos(ids, p.outcome_id.as_str());
            if pos < ids.len() && pos % 2 == parity {
                acc = acc + p.liquidity;
            }
        }
        proof {
            assert(spec_side_sum(prices@, ids@, parity as int, i as int + 1) == acc);
        }
        i = i + 1;
    }
    acc
}

/// Summed `"Against"` liquidity of one side over a whole market.
pub open spec fn spec_market_side_sum(m: crate::market::MonacoMarket, parity: int) -> int {
    match m.prices {
        Some(ps) => spec_side_sum(ps@, m.market_outcomes.ids@, parity, ps@.len() as int),
        None => 0,
    }
}

/// The `(line, home-sum, away-sum)` slot a handicap or totals market
/// contributes, when its type matches and its line resolves.
pub open spec fn spec_market_line_slot(
    m: crate::market::MonacoMarket,
    mt: MarketType,
) -> Option<(i64, int, int)> {
    if m.market_type.ids@.len() == 0 {
        None
    } else {
        let is_ah = m.market_type.ids@[0]@ == "FOOTBALL_FULL_TIME_RESULT_HANDICAP"@;
        let is_ou = m.market_type.ids@[0]@ == "FOOTBALL_OVER_UNDER_TOTAL_GOALS"@;
        let line = if mt == MarketType::Ah {
            crate::market::spec_handicap_line_opt(m.name@)
        } else {
            crate::market::spec_total_line_opt(m.market_value, m.name@)
        };
        if (mt == MarketType::Ah && is_ah) || (mt == MarketType::Ou && is_ou) {
            match line {
                Some(l) => Some((l, spec_market_side_sum(m, 0), spec_market_side_sum(m, 1))),
                None => None,
            }
        } else {
            None
        }
    }
}

/// Stable insertion position among `(line, h, a)` triples.
pub open spec fn spec_triple_pos(s: Seq<(i64, int, int)>, v: i64) -> int
    decreases s.len(),
{
    if s.len() == 0 {
        0
    } else if s[0].0 > v {
        0
    } else {
        1 + spec_triple_pos(s.drop_first(), v)
    }
}

/// The sorted `(line, h, a)` slots of the first `n` markets of one type:
/// each contributing market is inserted at its stable sorted position.
pub open spec fn spec_line_slots(
    markets: Seq<crate::market::MonacoMarket>,
    mt: MarketType,
    n: int,
) -> Seq<(i64, int, int)>
    decreases n,
{
    if n <= 0 || n > markets.len() {
        Seq::empty()
    } else {
        let rest = spec_line_slots(markets, mt, n - 1);
        match spec_market_line_slot(markets[n - 1], mt) {
            Some(t) => rest.insert(spec_triple_pos(rest, t.0), t),
            None => rest,
        }
    }
}

/// Number of slots whose line is not above `v`: the stable insertion
/// position, equal lines staying in arrival order.
pub open spec fn spec_slot_pos(s: Seq<LineSlot>, v: i64) -> int
    decreases s.len(),
{
    if s.len() == 0 {
        0
    } else if s[0].line > v {
        0
    } else {
        1 + spec_slot_pos(s.drop_first(), v)
    }
}

/// The slot list after a stable sorted insertion.
pub open spec fn spec_slot_insert(s: Seq<LineSlot>, slot: LineSlot) -> Seq<LineSlot> {
    s.insert(spec_slot_pos(s, slot.line), slot)
}

/// Non-decreasing line order.
pub open spec fn slots_sorted(s: Seq<LineSlot>) -> bool {
    forall|i: int, j: int| 0 <= i < j < s.len() ==> s[i].line <= s[j].line
}

/// `spec_slot_pos` stays within the list.
proof fn lemma_slot_pos_bounds(s: Seq<LineSlot>, v: i64)
    ensures
        0 <= spec_slot_pos(s, v) <= s.len(),
    decreases s.len(),
{
    if s.len() > 0 && !(s[0].line > v) {
        lemma_slot_pos_bounds(s.drop_first(), v);
    }
}

/// The scan position equals `spec_slot_pos`.
proof fn lemma_slot_pos(s: Seq<LineSlot>, v: i64, i: int)
    requires
        0 <= i <= s.len(),
        forall|k: int| 0 <= k < i ==> s[k].line <= v,
        i < s.len() ==> s[i].line > v,
    ensures
        spec_slot_pos(s, v) == i,
    decreases s.len(),
{
    if s.len() > 0 {
        if i == 0 {
        } else {
            let t = s.drop_first();
            assert(forall|k: int| 0 <= k < i - 1 ==> t[k] == s[k + 1] && t[k].line <= v);
            assert(i - 1 < t.len() ==> t[i - 1] == s[i]);
            lemma_slot_pos(t, v, i - 1);
        }
    }
}

/// Inserts a slot at its stable sorted position.
fn insert_slot(slots: &mut Vec<LineSlot>, slot: LineSlot)
    requires
        slots_sorted(old(slots)@),
    ensures
        final(slots)@ == spec_slot_insert(old(slots)@, slot),
        slots_sorted(final(slots)@),
{
    let ghost s0 = slots@;
    let v = slot.line;
    let n = slots.len();
    let mut i: usize = 0;
    while i < n && slots[i].line <= v
        invariant
            0 <= i <= n == slots@.len(),
            slots@ == s0,
            forall|k: int| 0 <= k < i ==> s0[k].line <= v,
        decreases n - i,
    {
        i = i + 1;
    }
    proof {
        lemma_slot_pos(s0, v, i as int);
    }
    slots.insert(i, slot);
    proof {
        let u = s0.insert(i as int, slot);
        assert(slots@ =~= u);
        assert forall|a: int, b: int| 0 <= a < b < u.len() implies u[a].line <= u[b].line by {
            assert forall|k: int| i <= k < s0.len() implies s0[k].line > v by {
                if k > i {
                    assert(s0[i as int].line <= s0[k].line);
                }
            }
            if a < i {
                assert(u[a] == s0[a]);
            } else if a == i {
                assert(u[a] == slot);
            } else {
                assert(u[a] == s0[a - 1]);
            }
            if b < i {
                assert(u[b] == s0[b]);
            } else if b == i {
                assert(u[b] == slot);
            } else {
                assert(u[b] == s0[b - 1]);
            }
        }
    }
}

/// The `(line, h, a)` view of an executable slot list.
pub open spec fn slot_view(s: Seq<LineSlot>) -> Seq<(i64, int, int)> {
    s.map_values(|x: LineSlot| (x.line, x.h_stake as int, x.a_stake as int))
}

/// The two insertion-position functions agree through the view.
proof fn lemma_triple_pos_view(s: Seq<LineSlot>, v: i64)
    ensures
        spec_triple_pos(slot_view(s), v) == spec_slot_pos(s, v),
    decreases s.len(),
{
    if s.len() > 0 {
        assert(slot_view(s)[0].0 == s[0].line);
        assert(slot_view(s).drop_first() =~= slot_view(s.drop_first()));
        lemma_triple_pos_view(s.drop_first(), v);
    }
}

/// Inserting commutes with the view.
proof fn lemma_slot_view_insert(s: Seq<LineSlot>, p: int, sl: LineSlot)
    requires
        0 <= p <= s.len(),
    ensures
        slot_view(s.insert(p, sl)) =~= slot_view(s).insert(
            p,
            (sl.line, sl.h_stake as int, sl.a_stake as int),
        ),
{
}

/// The line values of a slot list.
pub open spec fn spec_slot_lines(s: Seq<LineSlot>) -> Seq<i64> {
    s.map_values(|x: LineSlot| x.line)
}

/// The home/over stakes of a slot list.
pub open spec fn spec_slot_h(s: Seq<LineSlot>) -> Seq<i64> {
    s.map_values(|x: LineSlot| x.h_stake)
}

/// The away/under stakes of a slot list.
pub open spec fn spec_slot_a(s: Seq<LineSlot>) -> Seq<i64> {
    s.map_values(|x: LineSlot| x.a_stake)
}

/// Summed `"Against"` liquidity of one three-way outcome index over the
/// first `n` price records.
pub open spec fn spec_x12_sum(
    prices: Seq<MonacoPrice>,
    ids: Seq<String>,
    idx: int,
    n: int,
) -> int
    decreases n,
{
    if n <= 0 || n > prices.len() {
        0
    } else {
        let rest = spec_x12_sum(prices, ids, idx, n - 1);
        let p = prices[n - 1];
        let pos = spec_id_pos(ids, p.outcome_id@);
        if p.side@ == "Against"@ && pos < ids.len() && pos < 3 && pos == idx {
            rest + p.liquidity
        } else {
            rest
        }
    }
}

/// One market's three-way stake sum at an outcome index.
pub open spec fn spec_market_x12_sum(m: crate::market::MonacoMarket, idx: int) -> int {
    match m.prices {
        Some(ps) => spec_x12_sum(ps@, m.market_outcomes.ids@, idx, ps@.len() as int),
        None => 0,
    }
}

/// Whether a market is three-way typed.
pub open spec fn spec_is_x12_market(m: crate::market::MonacoMarket) -> bool {
    m.market_type.ids@.len() > 0 && m.market_type.ids@[0]@ == "FOOTBALL_FULL_TIME_RESULT"@
}

/// The first three-way market among the first `n`, if any.
pub open spec fn spec_first_x12(markets: Seq<crate::market::MonacoMarket>, n: int) -> Option<
    int,
>
    decreases n,
{
    if n <= 0 || n > markets.len() {
        None
    } else {
        match spec_first_x12(markets, n - 1) {
            Some(i) => Some(i),
            None => if spec_is_x12_market(markets[n - 1]) {
                Some(n - 1)
            } else {
                None
            },
        }
    }
}

/// The initial per-fixture structure built at market initialization: the
/// sorted line sets, the outcome identifiers per sorted line, and the
/// aggregated initial stakes.
#[derive(Debug)]
pub struct FixtureStructure {
    pub lines_entry: crate::record::LinesEntry,
    pub ids_entry: crate::record::IdsEntry,
    pub max_stakes_entry: crate::record::MaxStakesEntry,
}

/// Builds the initial fixture structure from a set of markets: handicap
/// and totals markets are sorted by their line values (equal lines keeping
/// arrival order), each contributing its outcome identifiers and the
/// summed `"Against"` liquidity of each side; the first three-way market
/// contributes its identifiers and stakes.
pub fn build_fixture_structure(
    markets: &Vec<crate::market::MonacoMarket>,
    timestamp: i64,
) -> (r: FixtureStructure)
    requires
        forall|m: int|
            0 <= m < markets@.len() ==> ((#[trigger] markets@[m]).prices matches Some(ps)
                ==> ps@.len() <= 4096 && (forall|k: int|
                0 <= k < ps@.len() ==> 0 <= (#[trigger] ps@[k]).liquidity <= 0x100_0000_0000)),
    ensures
        r.lines_entry.t == timestamp && r.ids_entry.t == timestamp && r.max_stakes_entry.t
            == timestamp,
        r.lines_entry.ah matches Some(v) ==> crate::monaco::lines_sorted(v@),
        r.lines_entry.ou matches Some(v) ==> crate::monaco::lines_sorted(v@),
        // the handicap side: sorted lines of the mapped markets, stakes
        // aligned with the summed "Against" liquidity of each side
        ({
            let ahs = spec_line_slots(markets@, MarketType::Ah, markets@.len() as int);
            if ahs.len() == 0 {
                r.lines_entry.ah is None && r.max_stakes_entry.max_stake_ah is None
            } else {
                &&& r.lines_entry.ah matches Some(v) && v@.len() == ahs.len() && (forall|k: int|
                    0 <= k < ahs.len() ==> v@[k] == (#[trigger] ahs[k]).0)
                &&& r.max_stakes_entry.max_stake_ah matches Some(st) && st.h@.len() == ahs.len()
                    && st.a@.len() == ahs.len() && (forall|k: int|
                    0 <= k < ahs.len() ==> st.h@[k] == (#[trigger] ahs[k]).1 && st.a@[k]
                        == ahs[k].2)
            }
        }),
        // the totals side, likewise
        ({
            let ous = spec_line_slots(markets@, MarketType::Ou, markets@.len() as int);
            if ous.len() == 0 {
                r.lines_entry.ou is None && r.max_stakes_entry.max_stake_ou is None
            } else {
                &&& r.lines_entry.ou matches Some(v) && v@.len() == ous.len() && (forall|k: int|
                    0 <= k < ous.len() ==> v@[k] == (#[trigger] ous[k]).0)
                &&& r.max_stakes_entry.max_stake_ou matches Some(st) && st.h@.len() == ous.len()
                    && st.a@.len() == ous.len() && (forall|k: int|
                    0 <= k < ous.len() ==> st.h@[k] == (#[trigger] ous[k]).1 && st.a@[k]
                        == ous[k].2)
            }
        }),
        // the first three-way market contributes its identifiers and sums
        (match spec_first_x12(markets@, markets@.len() as int) {
            Some(mi) => {
                &&& r.ids_entry.line_id matches Some(lid) && lid@ == markets@[mi].id@
                &&& r.ids_entry.line_ids.x12@.len() == markets@[mi].market_outcomes.ids@.len()
                &&& (forall|k: int|
                    0 <= k < r.ids_entry.line_ids.x12@.len()
                        ==> #[trigger] r.ids_entry.line_ids.x12@[k]@
                        == markets@[mi].market_outcomes.ids@[k]@)
                &&& r.max_stakes_entry.max_stake_x12 matches Some(st) && st@.len() == 3 && (
                forall|i: int|
                    0 <= i < 3 ==> st@[i] == spec_market_x12_sum(markets@[mi], i))
            },
            None => r.ids_entry.line_id is None && r.ids_entry.line_ids.x12@.len() == 0
                && r.max_stakes_entry.max_stake_x12 is None,
        }),
{
    let mut ah_slots: Vec<LineSlot> = Vec::new();
    let mut ou_slots: Vec<LineSlot> = Vec::new();
    let mut x12_ids: Vec<String> = Vec::new();
    let mut x12_stakes: Option<Vec<i64>> = None;
    let mut x12_line_id: Option<String> = None;
    let n = markets.len();
    let mut m: usize = 0;
    while m < n
        invariant
            0 <= m <= n == markets@.len(),
            slots_sorted(ah_slots@),
            slots_sorted(ou_slots@),
            slot_view(ah_slots@) == spec_line_slots(markets@, MarketType::Ah, m as int),
            slot_view(ou_slots@) == spec_line_slots(markets@, MarketType::Ou, m as int),
            (match spec_first_x12(markets@, m as int) {
                Some(mi) => {
                    &&& 0 <= mi < markets@.len()
                    &&& x12_line_id matches Some(lid) && lid@ == markets@[mi].id@
                    &&& x12_ids@.len() == markets@[mi].market_outcomes.ids@.len()
                    &&& (forall|k: int|
                        0 <= k < x12_ids@.len() ==> #[trigger] x12_ids@[k]@
                            == markets@[mi].market_outcomes.ids@[k]@)
                    &&& x12_stakes matches Some(st) && st@.len() == 3 && (forall|i: int|
                        0 <= i < 3 ==> st@[i] == spec_market_x12_sum(markets@[mi], i))
                },
                None => x12_line_id is None && x12_ids@.len() == 0 && x12_stakes is None,
            }),
            forall|m2: int|
                0 <= m2 < markets@.len() ==> ((#[trigger] markets@[m2]).prices matches Some(ps)
                    ==> ps@.len() <= 4096 && (forall|k: int|
                    0 <= k < ps@.len() ==> 0 <= (#[trigger] ps@[k]).liquidity
                        <= 0x100_0000_0000)),
        decreases n - m,
    {
        let ghost mk = markets@[m as int];
        let market = &markets[m];
        if market.market_type.ids.len() > 0 {
            let mt = crate::market::map_market_type(market.market_type.ids[0].as_str());
            match mt {
                Some(MarketType::X12) => {
                    proof {
                        assert(spec_is_x12_market(mk));
                        assert(spec_market_line_slot(mk, MarketType::Ah) is None);
                        assert(spec_market_line_slot(mk, MarketType::Ou) is None);
                    }
                    if x12_line_id.is_none() {
                        x12_line_id = Some(market.id.clone());
                        x12_ids = clone_strings(&market.market_outcomes.ids);
                        let (h, x, a) = x12_sums(market);
                        let mut st: Vec<i64> = Vec::new();
                        st.push(h);
                        st.push(x);
                        st.push(a);
                        x12_stakes = Some(st);
                    }
                },
                Some(MarketType::Ah) => {
                    proof {
                        assert(!spec_is_x12_market(mk));
                        assert(spec_market_line_slot(mk, MarketType::Ou) is None);
                    }
                    match crate::market::get_handicap_value(market) {
                        Some(line) => {
                            proof {
                                assert(spec_market_line_slot(mk, MarketType::Ah) == Some(
                                    (
                                        line,
                                        spec_market_side_sum(mk, 0),
                                        spec_market_side_sum(mk, 1),
                                    ),
                                ));
                            }
                            let slot = market_slot(market, line);
                            let ghost pre = ah_slots@;
                            insert_slot(&mut ah_slots, slot);
                            proof {
                                lemma_triple_pos_view(pre, line);
                                lemma_slot_pos_bounds(pre, line);
                                lemma_slot_view_insert(pre, spec_slot_pos(pre, line), slot);
                            }
                        },
                        None => {
                            proof {
                                assert(spec_market_line_slot(mk, MarketType::Ah) is None);
                            }
                        },
                    }
                },
                Some(MarketType::Ou) => {
                    proof {
                        assert(!spec_is_x12_market(mk));
                        assert(spec_market_line_slot(mk, MarketType::Ah) is None);
                    }
                    match crate::market::get_total_value(market) {
                        Some(line) => {
                            proof {
                                assert(spec_market_line_slot(mk, MarketType::Ou) == Some(
                                    (
                                        line,
                                        spec_market_side_sum(mk, 0),
                                        spec_market_side_sum(mk, 1),
                                    ),
                                ));
                            }
                            let slot = market_slot(market, line);
                            let ghost pre = ou_slots@;
                            insert_slot(&mut ou_slots, slot);
                            proof {
                                lemma_triple_pos_view(pre, line);
                                lemma_slot_pos_bounds(pre, line);
                                lemma_slot_view_insert(pre, spec_slot_pos(pre, line), slot);
                            }
                        },
                        None => {
                            proof {
                                assert(spec_market_line_slot(mk, MarketType::Ou) is None);
                            }
                        },
                    }
                },
                None => {
                    proof {
                        assert(!spec_is_x12_market(mk));
                        assert(spec_market_line_slot(mk, MarketType::Ah) is None);
                        assert(spec_market_line_slot(mk, MarketType::Ou) is None);
                    }
                },
            }
        } else {
            proof {
                assert(!spec_is_x12_market(mk));
                assert(spec_market_line_slot(mk, MarketType::Ah) is None);
                assert(spec_market_line_slot(mk, MarketType::Ou) is None);
            }
        }
        m = m + 1;
    }
    // assemble the entries from the sorted slots
    let (ah_lines, ah_ids, ah_h, ah_a) = flatten_slots(&ah_slots);
    let (ou_lines, ou_ids, ou_h, ou_a) = flatten_slots(&ou_slots);
    let lines_entry = crate::record::LinesEntry {
        t: timestamp,
        ah: if ah_slots.len() > 0 {
            Some(ah_lines)
        } else {
            None
        },
        ou: if ou_slots.len() > 0 {
            Some(ou_lines)
        } else {
            None
        },
    };
    let ids_entry = crate::record::IdsEntry {
        t: timestamp,
        line_id: x12_line_id,
        line_ids: crate::record::LineIds { x12: x12_ids, ah: ah_ids, ou: ou_ids },
    };
    let max_stakes_entry = crate::record::MaxStakesEntry {
        t: timestamp,
        max_stake_x12: x12_stakes,
        max_stake_ah: if ah_slots.len() > 0 {
            Some(crate::record::MaxStakeAhOu { h: ah_h, a: ah_a })
        } else {
            None
        },
        max_stake_ou: if ou_slots.len() > 0 {
            Some(crate::record::MaxStakeAhOu { h: ou_h, a: ou_a })
        } else {
            None
        },
    };
    FixtureStructure { lines_entry, ids_entry, max_stakes_entry }
}

/// Non-decreasing line values.
pub open spec fn lines_sorted(s: Seq<i64>) -> bool {
    forall|i: int, j: int| 0 <= i < j < s.len() ==> s[i] <= s[j]
}

/// One market reduced to its slot.
fn market_slot(market: &crate::market::MonacoMarket, line: i64) -> (r: LineSlot)
    requires
        market.prices matches Some(ps) ==> ps@.len() <= 4096 && (forall|k: int|
            0 <= k < ps@.len() ==> 0 <= (#[trigger] ps@[k]).liquidity <= 0x100_0000_0000),
    ensures
        r.line == line,
        r.h_stake == spec_market_side_sum(*market, 0),
        r.a_stake == spec_market_side_sum(*market, 1),
        r.ids@.len() == market.market_outcomes.ids@.len(),
        forall|k: int|
            0 <= k < r.ids@.len() ==> #[trigger] r.ids@[k]@ == market.market_outcomes.ids@[k]@,
{
    let ids = clone_strings(&market.market_outcomes.ids);
    let (h_stake, a_stake) = match &market.prices {
        Some(ps) => (
            side_sum(ps, &market.market_outcomes.ids, 0),
            side_sum(ps, &market.market_outcomes.ids, 1),
        ),
        None => (0, 0),
    };
    LineSlot { line, ids, h_stake, a_stake }
}

/// The three-way stake sums of one market, one per outcome index.
fn x12_sums(market: &crate::market::MonacoMarket) -> (r: (i64, i64, i64))
    requires
        market.prices matches Some(ps) ==> ps@.len() <= 4096 && (forall|k: int|
            0 <= k < ps@.len() ==> 0 <= (#[trigger] ps@[k]).liquidity <= 0x100_0000_0000),
    ensures
        r.0 == spec_market_x12_sum(*market, 0),
        r.1 == spec_market_x12_sum(*market, 1),
        r.2 == spec_market_x12_sum(*market, 2),
{
    match &market.prices {
        Some(ps) => {
            let mut sums: Vec<i64> = Vec::new();
            sums.push(0);
            sums.push(0);
            sums.push(0);
            let n = ps.len();
            let mut i: usize = 0;
            while i < n
                invariant
                    0 <= i <= n == ps@.len(),
                    n <= 4096,
                    sums@.len() == 3,
                    forall|k: int| 0 <= k < 3 ==> 0 <= #[trigger] sums@[k] <= i * 0x100_0000_0000,
                    forall|k: int|
                        0 <= k < 3 ==> #[trigger] sums@[k] == spec_x12_sum(
                            ps@,
                            market.market_outcomes.ids@,
                            k,
                            i as int,
                        ),
                    forall|k: int|
                        0 <= k < ps@.len() ==> 0 <= (#[trigger] ps@[k]).liquidity
                            <= 0x100_0000_0000,
                decreases n - i,
            {
                let p = &ps[i];
                if str_eq(p.side.as_str(), "Against") {
                    let pos = id_pos(&market.market_outcomes.ids, p.outcome_id.as_str());
                    if pos < 3 && pos < market.market_outcomes.ids.len() {
                        let cur = sums[pos];
                        sums.set(pos, cur + p.liquidity);
                    }
                }
                proof {
                    assert(forall|k: int|
                        0 <= k < 3 ==> #[trigger] sums@[k] == spec_x12_sum(
                            ps@,
                            market.market_outcomes.ids@,
                            k,
                            i as int + 1,
                        ));
                }
                i = i + 1;
            }
            (sums[0], sums[1], sums[2])
        },
        None => (0, 0, 0),
    }
}

/// Copies a string vector.
fn clone_strings(v: &Vec<String>) -> (r: Vec<String>)
    ensures
        r@.len() == v@.len(),
        forall|k: int| 0 <= k < v@.len() ==> #[trigger] r@[k]@ == v@[k]@,
{
    let mut r: Vec<String> = Vec::new();
    let n = v.len();
    let mut i: usize = 0;
    while i < n
        invariant
            0 <= i <= n == v@.len(),
            r@.len() == i,
            forall|k: int| 0 <= k < i ==> #[trigger] r@[k]@ == v@[k]@,
        decreases n - i,
    {
        r.push(v[i].clone());
        i = i + 1;
    }
    r
}

/// Flattens sorted slots into the aligned line, identifier and stake
/// vectors.
fn flatten_slots(slots: &Vec<LineSlot>) -> (r: (Vec<i64>, Vec<String>, Vec<i64>, Vec<i64>))
    requires
        slots_sorted(slots@),
    ensures
        r.0@ == spec_slot_lines(slots@),
        lines_sorted(r.0@),
        r.2@ == spec_slot_h(slots@),
        r.3@ == spec_slot_a(slots@),
{
    let mut lines: Vec<i64> = Vec::new();
    let mut ids: Vec<String> = Vec::new();
    let mut hs: Vec<i64> = Vec::new();
    let mut asx: Vec<i64> = Vec::new();
    let n = slots.len();
    let mut i: usize = 0;
    while i < n
        invariant
            0 <= i <= n == slots@.len(),
            slots_sorted(slots@),
            lines@ =~= spec_slot_lines(slots@.take(i as int)),
            hs@ =~= spec_slot_h(slots@.take(i as int)),
            asx@ =~= spec_slot_a(slots@.take(i as int)),
        decreases n - i,
    {
        let s = &slots[i];
        lines.push(s.line);
        let m = s.ids.len();
        let mut j: usize = 0;
        while j < m
            invariant
                0 <= j <= m == slots@[i as int].ids@.len(),
                i < slots@.len(),
            decreases m - j,
        {
            ids.push(slots[i].ids[j].clone());
            j = j + 1;
        }
        hs.push(s.h_stake);
        asx.push(s.a_stake);
        proof {
            assert(lines@ =~= spec_slot_lines(slots@.take(i as int + 1)));
            assert(hs@ =~= spec_slot_h(slots@.take(i as int + 1)));
            assert(asx@ =~= spec_slot_a(slots@.take(i as int + 1)));
        }
        i = i + 1;
    }
    proof {
        assert(slots@.take(n as int) =~= slots@);
        assert forall|a: int, b: int| 0 <= a < b < lines@.len() implies lines@[a]
            <= lines@[b] by {
            assert(lines@[a] == slots@[a].line && lines@[b] == slots@[b].line);
        }
    }
    (lines, ids, hs, asx)
}

} // verus!

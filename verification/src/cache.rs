//! The processor cache: a bounded set of fixtures, each carrying per-
//! bookmaker snapshots with a twenty-deep history, updated by normalized
//! odds updates.  Eviction removes the fixture with the smallest
//! `last_update`, ties broken by the smaller fixture id.

use vstd::prelude::*;

use crate::fair::{spec_clamp_i32, spec_fair_ok, spec_fair_value, spec_ints};
use crate::numeric::spec_pow10;
use crate::record::{IdsEntry, LatestT, MaxStakesEntry};
use crate::strutil::str_eq;
use crate::update::OddsUpdate;

verus! {

/// One bookmaker's current odds: three-way scalars with their fair
/// counterparts, aligned handicap and totals vectors, the raw columns, and
/// the upstream update time.
#[derive(Debug)]
pub struct BookmakerSnapshot {
    pub x12_h: Option<i32>,
    pub x12_x: Option<i32>,
    pub x12_a: Option<i32>,
    pub fair_x12_h: Option<i32>,
    pub fair_x12_x: Option<i32>,
    pub fair_x12_a: Option<i32>,
    pub ah_lines: Vec<i64>,
    pub ah_h: Vec<i32>,
    pub ah_a: Vec<i32>,
    pub fair_ah_h: Vec<i32>,
    pub fair_ah_a: Vec<i32>,
    pub ou_lines: Vec<i64>,
    pub ou_o: Vec<i32>,
    pub ou_u: Vec<i32>,
    pub fair_ou_o: Vec<i32>,
    pub fair_ou_u: Vec<i32>,
    pub ids: Option<IdsEntry>,
    pub max_stakes: Option<MaxStakesEntry>,
    pub latest_t: Option<LatestT>,
    pub timestamp: i64,
}

/// Field-wise equality of two snapshots, through the vector views.
pub open spec fn snap_eq(a: BookmakerSnapshot, b: BookmakerSnapshot) -> bool {
    &&& a.x12_h == b.x12_h && a.x12_x == b.x12_x && a.x12_a == b.x12_a
    &&& a.fair_x12_h == b.fair_x12_h && a.fair_x12_x == b.fair_x12_x && a.fair_x12_a
        == b.fair_x12_a
    &&& a.ah_lines@ == b.ah_lines@ && a.ah_h@ == b.ah_h@ && a.ah_a@ == b.ah_a@
    &&& a.fair_ah_h@ == b.fair_ah_h@ && a.fair_ah_a@ == b.fair_ah_a@
    &&& a.ou_lines@ == b.ou_lines@ && a.ou_o@ == b.ou_o@ && a.ou_u@ == b.ou_u@
    &&& a.fair_ou_o@ == b.fair_ou_o@ && a.fair_ou_u@ == b.fair_ou_u@
    &&& opt_ids_eq(a.ids, b.ids) && opt_stakes_eq(a.max_stakes, b.max_stakes) && a.latest_t
        == b.latest_t
    &&& a.timestamp == b.timestamp
}

/// Equality of string vectors through views.
pub open spec fn strvec_eq(a: Seq<String>, b: Seq<String>) -> bool {
    a.map_values(|s: String| s@) == b.map_values(|s: String| s@)
}

/// Equality of `ids` entries through views.
pub open spec fn ids_eq(a: IdsEntry, b: IdsEntry) -> bool {
    &&& a.t == b.t
    &&& (match (a.line_id, b.line_id) {
        (Some(x), Some(y)) => x@ == y@,
        (None, None) => true,
        _ => false,
    })
    &&& strvec_eq(a.line_ids.x12@, b.line_ids.x12@)
    &&& strvec_eq(a.line_ids.ah@, b.line_ids.ah@)
    &&& strvec_eq(a.line_ids.ou@, b.line_ids.ou@)
}

/// Equality of optional `ids` entries.
pub open spec fn opt_ids_eq(a: Option<IdsEntry>, b: Option<IdsEntry>) -> bool {
    match (a, b) {
        (Some(x), Some(y)) => ids_eq(x, y),
        (None, None) => true,
        _ => false,
    }
}

/// Equality of `max_stakes` entries through views.
pub open spec fn stakes_eq(a: MaxStakesEntry, b: MaxStakesEntry) -> bool {
    &&& a.t == b.t
    &&& (match (a.max_stake_x12, b.max_stake_x12) {
        (Some(x), Some(y)) => x@ == y@,
        (None, None) => true,
        _ => false,
    })
    &&& (match (a.max_stake_ah, b.max_stake_ah) {
        (Some(x), Some(y)) => x.h@ == y.h@ && x.a@ == y.a@,
        (None, None) => true,
        _ => false,
    })
    &&& (match (a.max_stake_ou, b.max_stake_ou) {
        (Some(x), Some(y)) => x.h@ == y.h@ && x.a@ == y.a@,
        (None, None) => true,
        _ => false,
    })
}

/// Equality of optional `max_stakes` entries.
pub open spec fn opt_stakes_eq(a: Option<MaxStakesEntry>, b: Option<MaxStakesEntry>) -> bool {
    match (a, b) {
        (Some(x), Some(y)) => stakes_eq(x, y),
        (None, None) => true,
        _ => false,
    }
}

/// One bookmaker in the cache: identity, current snapshot, and the history
/// of prior snapshots, newest first.
#[derive(Debug)]
pub struct BookmakerOdds {
    pub bookie_id: i64,
    pub decimals: i32,
    pub current: BookmakerSnapshot,
    pub history: Vec<BookmakerSnapshot>,
}

/// One cached fixture: its bookmakers (labels unique) and the time of the
/// last update applied to it.
#[derive(Debug)]
pub struct FixtureData {
    pub fixture_id: i64,
    pub bookmakers: Vec<(String, BookmakerOdds)>,
    pub last_update: i64,
}

/// The cache itself.
#[derive(Debug)]
pub struct Cache {
    pub fixtures: Vec<FixtureData>,
    pub max_fixtures: usize,
}

/// History bounded to twenty entries.
pub open spec fn book_wf(b: BookmakerOdds) -> bool {
    b.history@.len() <= 20
}

/// Unique bookmaker labels; every bookmaker's history bounded.
pub open spec fn fixture_wf(f: FixtureData) -> bool {
    &&& forall|i: int, j: int| 0 <= i < j < f.bookmakers@.len() ==> f.bookmakers@[i].0@ != f.bookmakers@[j].0@
    &&& forall|i: int| 0 <= i < f.bookmakers@.len() ==> book_wf(f.bookmakers@[i].1)
}

/// Unique fixture identifiers; every fixture well-formed; the count within
/// the configured bound.
pub open spec fn cache_wf(c: Cache) -> bool {
    &&& forall|i: int, j: int|
        0 <= i < j < c.fixtures@.len() ==> c.fixtures@[i].fixture_id != c.fixtures@[j].fixture_id
    &&& forall|i: int| 0 <= i < c.fixtures@.len() ==> fixture_wf(c.fixtures@[i])
    &&& c.fixtures@.len() <= c.max_fixtures
}

/// The cache holds the fixture.
pub open spec fn cache_has(fs: Seq<FixtureData>, fid: i64) -> bool {
    exists|i: int| 0 <= i < fs.len() && fs[i].fixture_id == fid
}

/// Index of the fixture.
pub open spec fn cache_index_of(fs: Seq<FixtureData>, fid: i64) -> int {
    choose|i: int| 0 <= i < fs.len() && fs[i].fixture_id == fid
}

/// The fixture at `fs[i]` is the eviction victim: no other fixture has a
/// smaller `(last_update, fixture_id)` pair.
pub open spec fn is_oldest(fs: Seq<FixtureData>, i: int) -> bool {
    &&& 0 <= i < fs.len()
    &&& forall|j: int|
        0 <= j < fs.len() ==> (fs[i].last_update < fs[j].last_update || (fs[i].last_update
            == fs[j].last_update && fs[i].fixture_id <= fs[j].fixture_id))
}

/// The fixture holds a bookmaker under the label.
pub open spec fn fixture_has_book(f: FixtureData, label: Seq<char>) -> bool {
    exists|i: int| 0 <= i < f.bookmakers@.len() && f.bookmakers@[i].0@ == label
}

/// Index of the bookmaker under the label.
pub open spec fn fixture_book_index(f: FixtureData, label: Seq<char>) -> int {
    choose|i: int| 0 <= i < f.bookmakers@.len() && f.bookmakers@[i].0@ == label
}

/// The fair pair of one handicap or totals line: both sides de-vigged
/// together, zeros when the computation rejects the pair.
pub open spec fn spec_fair_pair(h: i32, a: i32, decimals: i32) -> (int, int) {
    let o = seq![h as int, a as int];
    if 0 <= decimals <= 9 && spec_fair_ok(o, spec_pow10(decimals as nat)) {
        (
            spec_clamp_i32(spec_fair_value(o, spec_pow10(decimals as nat), 0)),
            spec_clamp_i32(spec_fair_value(o, spec_pow10(decimals as nat), 1)),
        )
    } else {
        (0, 0)
    }
}

/// The three-way odds of a snapshot admit a fair computation.
pub open spec fn spec_x12_fair_ok(s: BookmakerSnapshot, decimals: i32) -> bool {
    &&& s.x12_h is Some && s.x12_x is Some && s.x12_a is Some
    &&& 0 <= decimals <= 9
    &&& spec_fair_ok(
        seq![
            s.x12_h.unwrap() as int,
            s.x12_x.unwrap() as int,
            s.x12_a.unwrap() as int,
        ],
        spec_pow10(decimals as nat),
    )
}

/// The fair three-way value at slot `i` of a snapshot.
pub open spec fn spec_x12_fair_value(s: BookmakerSnapshot, decimals: i32, i: int) -> int {
    spec_clamp_i32(
        spec_fair_value(
            seq![
                s.x12_h.unwrap() as int,
                s.x12_x.unwrap() as int,
                s.x12_a.unwrap() as int,
            ],
            spec_pow10(decimals as nat),
            i,
        ),
    )
}

/// The value of an odds vector at `i`, or zero past its end.
pub open spec fn odds_at(v: Seq<i32>, i: int) -> i32 {
    if 0 <= i < v.len() {
        v[i]
    } else {
        0
    }
}

/// How an update overwrites the plain columns of a snapshot: a present
/// column replaces the field, an absent one leaves it.
pub open spec fn spec_columns_applied(
    old_s: BookmakerSnapshot,
    new_s: BookmakerSnapshot,
    u: OddsUpdate,
) -> bool {
    &&& new_s.timestamp == u.timestamp
    &&& (match u.x12 {
        Some(v) => if v@.len() == 3 {
            new_s.x12_h == Some(v@[0]) && new_s.x12_x == Some(v@[1]) && new_s.x12_a == Some(
                v@[2],
            )
        } else {
            new_s.x12_h == old_s.x12_h && new_s.x12_x == old_s.x12_x && new_s.x12_a
                == old_s.x12_a
        },
        None => new_s.x12_h == old_s.x12_h && new_s.x12_x == old_s.x12_x && new_s.x12_a
            == old_s.x12_a,
    })
    &&& (match u.ah_lines {
        Some(v) => new_s.ah_lines@ == v@,
        None => new_s.ah_lines@ == old_s.ah_lines@,
    })
    &&& (match u.ah_h {
        Some(v) => new_s.ah_h@ == v@,
        None => new_s.ah_h@ == old_s.ah_h@,
    })
    &&& (match u.ah_a {
        Some(v) => new_s.ah_a@ == v@,
        None => new_s.ah_a@ == old_s.ah_a@,
    })
    &&& (match u.ou_lines {
        Some(v) => new_s.ou_lines@ == v@,
        None => new_s.ou_lines@ == old_s.ou_lines@,
    })
    &&& (match u.ou_o {
        Some(v) => new_s.ou_o@ == v@,
        None => new_s.ou_o@ == old_s.ou_o@,
    })
    &&& (match u.ou_u {
        Some(v) => new_s.ou_u@ == v@,
        None => new_s.ou_u@ == old_s.ou_u@,
    })
    &&& (match u.ids {
        Some(e) => new_s.ids matches Some(x) && ids_eq(x, e),
        None => opt_ids_eq(new_s.ids, old_s.ids),
    })
    &&& (match u.max_stakes {
        Some(e) => new_s.max_stakes matches Some(x) && stakes_eq(x, e),
        None => opt_stakes_eq(new_s.max_stakes, old_s.max_stakes),
    })
    &&& (match u.latest_t {
        Some(e) => new_s.latest_t == Some(e),
        None => new_s.latest_t == old_s.latest_t,
    })
}

/// The fair columns of the new snapshot follow from its raw columns.
pub open spec fn spec_fair_applied(
    old_s: BookmakerSnapshot,
    new_s: BookmakerSnapshot,
    decimals: i32,
) -> bool {
    &&& (if spec_x12_fair_ok(new_s, decimals) {
        &&& new_s.fair_x12_h == Some(spec_x12_fair_value(new_s, decimals, 0) as i32)
        &&& new_s.fair_x12_x == Some(spec_x12_fair_value(new_s, decimals, 1) as i32)
        &&& new_s.fair_x12_a == Some(spec_x12_fair_value(new_s, decimals, 2) as i32)
    } else {
        &&& new_s.fair_x12_h == old_s.fair_x12_h
        &&& new_s.fair_x12_x == old_s.fair_x12_x
        &&& new_s.fair_x12_a == old_s.fair_x12_a
    })
    &&& new_s.fair_ah_h@.len() == new_s.ah_lines@.len()
    &&& new_s.fair_ah_a@.len() == new_s.ah_lines@.len()
    &&& (forall|i: int|
        0 <= i < new_s.ah_lines@.len() ==> (new_s.fair_ah_h@[i] as int, new_s.fair_ah_a@[i] as int)
            == spec_fair_pair(odds_at(new_s.ah_h@, i), odds_at(new_s.ah_a@, i), decimals))
    &&& new_s.fair_ou_o@.len() == new_s.ou_lines@.len()
    &&& new_s.fair_ou_u@.len() == new_s.ou_lines@.len()
    &&& (forall|i: int|
        0 <= i < new_s.ou_lines@.len() ==> (new_s.fair_ou_o@[i] as int, new_s.fair_ou_u@[i] as int)
            == spec_fair_pair(odds_at(new_s.ou_o@, i), odds_at(new_s.ou_u@, i), decimals))
}

/// The history of the new bookmaker entry: the old current snapshot pushed
/// to the front when it carried data, capped at twenty.
pub open spec fn spec_history_applied(old_b: BookmakerOdds, new_b: BookmakerOdds) -> bool {
    if old_b.current.timestamp > 0 {
        &&& new_b.history@.len() == if old_b.history@.len() + 1 <= 20 {
            old_b.history@.len() + 1
        } else {
            20nat
        }
        &&& snap_eq(new_b.history@[0], old_b.current)
        &&& forall|i: int|
            1 <= i < new_b.history@.len() ==> snap_eq(new_b.history@[i], old_b.history@[i - 1])
    } else {
        &&& new_b.history@.len() == old_b.history@.len()
        &&& forall|i: int|
            0 <= i < new_b.history@.len() ==> snap_eq(new_b.history@[i], old_b.history@[i])
    }
}

/// A fresh bookmaker entry before any update: everything absent or empty.
pub open spec fn spec_fresh_book(b: BookmakerOdds) -> bool {
    &&& b.bookie_id == 0 && b.decimals == 3
    &&& b.current.x12_h is None && b.current.x12_x is None && b.current.x12_a is None
    &&& b.current.fair_x12_h is None && b.current.fair_x12_x is None && b.current.fair_x12_a
        is None
    &&& b.current.ah_lines@.len() == 0 && b.current.ah_h@.len() == 0 && b.current.ah_a@.len() == 0
    &&& b.current.fair_ah_h@.len() == 0 && b.current.fair_ah_a@.len() == 0
    &&& b.current.ou_lines@.len() == 0 && b.current.ou_o@.len() == 0 && b.current.ou_u@.len() == 0
    &&& b.current.fair_ou_o@.len() == 0 && b.current.fair_ou_u@.len() == 0
    &&& b.current.ids is None && b.current.max_stakes is None && b.current.latest_t is None
    &&& b.current.timestamp == 0
    &&& b.history@.len() == 0
}

/// The whole effect of one applied update on the addressed bookmaker entry.
pub open spec fn spec_book_applied(old_b: BookmakerOdds, new_b: BookmakerOdds, u: OddsUpdate) -> bool {
    &&& new_b.bookie_id == u.bookie_id
    &&& new_b.decimals == u.decimals
    &&& spec_columns_applied(old_b.current, new_b.current, u)
    &&& spec_fair_applied(old_b.current, new_b.current, u.decimals)
    &&& spec_history_applied(old_b, new_b)
}

impl Cache {
    /// An empty cache bounded by `max_fixtures`.
    pub fn new(max_fixtures: usize) -> (r: Cache)
        ensures
            r.fixtures@.len() == 0,
            r.max_fixtures == max_fixtures,
            cache_wf(r),
    {
        Cache { fixtures: Vec::new(), max_fixtures }
    }

    /// Number of cached fixtures.
    pub fn len(&self) -> (r: usize)
        ensures
            r == self.fixtures@.len(),
    {
        self.fixtures.len()
    }

    /// Position of the fixture, if cached.
    fn find_fixture(&self, fid: i64) -> (r: Option<usize>)
        requires
            cache_wf(*self),
        ensures
            match r {
                Some(i) => i < self.fixtures@.len() && self.fixtures@[i as int].fixture_id == fid
                    && cache_has(self.fixtures@, fid) && cache_index_of(self.fixtures@, fid)
                    == i,
                None => !cache_has(self.fixtures@, fid),
            },
    {
        let n = self.fixtures.len();
        let mut i: usize = 0;
        while i < n
            invariant
                0 <= i <= n == self.fixtures@.len(),
                cache_wf(*self),
                forall|k: int| 0 <= k < i ==> self.fixtures@[k].fixture_id != fid,
            decreases n - i,
        {
            if self.fixtures[i].fixture_id == fid {
                proof {
                    lemma_cache_index(self.fixtures@, fid, i as int);
                }
                return Some(i);
            }
            i = i + 1;
        }
        None
    }

    /// Removes the fixture with the smallest `(last_update, fixture_id)`
    /// pair; every other fixture survives untouched.
    pub fn evict_oldest(&mut self) -> (ev: Ghost<int>)
        requires
            cache_wf(*old(self)),
            old(self).fixtures@.len() > 0,
        ensures
            cache_wf(*final(self)),
            final(self).max_fixtures == old(self).max_fixtures,
            final(self).fixtures@.len() == old(self).fixtures@.len() - 1,
            is_oldest(old(self).fixtures@, ev@),
            final(self).fixtures@ == old(self).fixtures@.remove(ev@),
    {
        let n = self.fixtures.len();
        let mut best: usize = 0;
        let mut i: usize = 1;
        while i < n
            invariant
                0 < n == self.fixtures@.len(),
                0 <= best < i <= n,
                cache_wf(*self),
                forall|j: int|
                    0 <= j < i ==> (self.fixtures@[best as int].last_update
                        < self.fixtures@[j].last_update || (self.fixtures@[best as int].last_update
                        == self.fixtures@[j].last_update
                        && self.fixtures@[best as int].fixture_id
                        <= self.fixtures@[j].fixture_id)),
            decreases n - i,
        {
            let cur_lu = self.fixtures[i].last_update;
            let cur_id = self.fixtures[i].fixture_id;
            let best_lu = self.fixtures[best].last_update;
            let best_id = self.fixtures[best].fixture_id;
            if cur_lu < best_lu || (cur_lu == best_lu && cur_id < best_id) {
                best = i;
            }
            i = i + 1;
        }
        let ghost fs0 = self.fixtures@;
        let ghost bi = best as int;
        self.fixtures.remove(best);
        let ev = Ghost(bi);
        proof {
            assert(is_oldest(fs0, bi));
            assert(self.fixtures@ =~= fs0.remove(bi));
            assert(cache_wf(*self)) by {
                assert forall|a: int, b: int|
                    0 <= a < b < self.fixtures@.len() implies self.fixtures@[a].fixture_id
                    != self.fixtures@[b].fixture_id by {
                    let sa = if a < bi {
                        a
                    } else {
                        a + 1
                    };
                    let sb = if b < bi {
                        b
                    } else {
                        b + 1
                    };
                    assert(self.fixtures@[a] == fs0[sa] && self.fixtures@[b] == fs0[sb]);
                }
                assert forall|a: int| 0 <= a < self.fixtures@.len() implies fixture_wf(
                    self.fixtures@[a],
                ) by {
                    let sa = if a < bi {
                        a
                    } else {
                        a + 1
                    };
                    assert(self.fixtures@[a] == fs0[sa]);
                }
            }
        }
        ev
    }
}

/// Any index holding the fixture id is the cache index.
proof fn lemma_cache_index(fs: Seq<FixtureData>, fid: i64, i: int)
    requires
        forall|a: int, b: int| 0 <= a < b < fs.len() ==> fs[a].fixture_id != fs[b].fixture_id,
        0 <= i < fs.len(),
        fs[i].fixture_id == fid,
    ensures
        cache_has(fs, fid),
        cache_index_of(fs, fid) == i,
{
    assert(cache_has(fs, fid)) by {
        assert(fs[i].fixture_id == fid);
    }
    let j = cache_index_of(fs, fid);
    if j < i {
        assert(fs[j].fixture_id != fs[i].fixture_id);
    } else if i < j {
        assert(fs[i].fixture_id != fs[j].fixture_id);
    }
}

/// Pushing the old current snapshot to the front of a history keeps the cap
/// and, when the update times arrive in order, the non-increasing order of
/// history timestamps.
pub proof fn lemma_history_cap_and_order(old_b: BookmakerOdds, new_b: BookmakerOdds)
    requires
        spec_history_applied(old_b, new_b),
        old_b.history@.len() <= 20,
        forall|i: int, j: int|
            0 <= i < j < old_b.history@.len() ==> old_b.history@[i].timestamp
                >= old_b.history@[j].timestamp,
        old_b.history@.len() > 0 ==> old_b.current.timestamp >= old_b.history@[0].timestamp,
    ensures
        new_b.history@.len() <= 20,
        forall|i: int, j: int|
            0 <= i < j < new_b.history@.len() ==> new_b.history@[i].timestamp
                >= new_b.history@[j].timestamp,
{
    if old_b.current.timestamp > 0 {
        assert forall|i: int, j: int|
            0 <= i < j < new_b.history@.len() implies new_b.history@[i].timestamp
            >= new_b.history@[j].timestamp by {
            assert(snap_eq(new_b.history@[j], old_b.history@[j - 1]));
            if i == 0 {
                assert(snap_eq(new_b.history@[0], old_b.current));
                if j - 1 > 0 {
                    assert(old_b.history@[0].timestamp >= old_b.history@[j - 1].timestamp);
                }
            } else {
                assert(snap_eq(new_b.history@[i], old_b.history@[i - 1]));
            }
        }
    } else {
        assert forall|i: int, j: int|
            0 <= i < j < new_b.history@.len() implies new_b.history@[i].timestamp
            >= new_b.history@[j].timestamp by {
            assert(snap_eq(new_b.history@[i], old_b.history@[i]));
            assert(snap_eq(new_b.history@[j], old_b.history@[j]));
        }
    }
}


/// Copies a vector of a `Copy` element type.
fn clone_copy_vec<T: Copy>(v: &Vec<T>) -> (r: Vec<T>)
    ensures
        r@ == v@,
{
    let mut r: Vec<T> = Vec::new();
    let n = v.len();
    let mut i: usize = 0;
    while i < n
        invariant
            0 <= i <= n == v@.len(),
            r@ =~= v@.take(i as int),
        decreases n - i,
    {
        r.push(v[i]);
        proof {
            assert(r@ =~= v@.take(i as int + 1));
        }
        i = i + 1;
    }
    proof {
        assert(v@.take(n as int) =~= v@);
    }
    r
}

/// Copies a vector of strings, preserving every view.
fn clone_string_vec(v: &Vec<String>) -> (r: Vec<String>)
    ensures
        strvec_eq(r@, v@),
{
    let mut r: Vec<String> = Vec::new();
    let n = v.len();
    let mut i: usize = 0;
    while i < n
        invariant
            0 <= i <= n == v@.len(),
            r@.len() == i,
            forall|k: int| 0 <= k < i ==> r@[k]@ == v@[k]@,
        decreases n - i,
    {
        r.push(v[i].clone());
        i = i + 1;
    }
    proof {
        assert(r@.map_values(|s: String| s@) =~= v@.map_values(|s: String| s@));
    }
    r
}

/// Copies an optional `ids` entry.
fn clone_opt_ids(v: &Option<IdsEntry>) -> (r: Option<IdsEntry>)
    ensures
        opt_ids_eq(r, *v),
{
    match v {
        None => None,
        Some(e) => {
            let line_id = match &e.line_id {
                Some(s) => Some(s.clone()),
                None => None,
            };
            Some(
                IdsEntry {
                    t: e.t,
                    line_id,
                    line_ids: crate::record::LineIds {
                        x12: clone_string_vec(&e.line_ids.x12),
                        ah: clone_string_vec(&e.line_ids.ah),
                        ou: clone_string_vec(&e.line_ids.ou),
                    },
                },
            )
        },
    }
}

/// Copies an optional `max_stakes` entry.
fn clone_opt_stakes(v: &Option<MaxStakesEntry>) -> (r: Option<MaxStakesEntry>)
    ensures
        opt_stakes_eq(r, *v),
{
    match v {
        None => None,
        Some(e) => {
            let max_stake_x12 = match &e.max_stake_x12 {
                Some(s) => Some(clone_copy_vec(s)),
                None => None,
            };
            let max_stake_ah = match &e.max_stake_ah {
                Some(s) => Some(
                    crate::record::MaxStakeAhOu { h: clone_copy_vec(&s.h), a: clone_copy_vec(&s.a) },
                ),
                None => None,
            };
            let max_stake_ou = match &e.max_stake_ou {
                Some(s) => Some(
                    crate::record::MaxStakeAhOu { h: clone_copy_vec(&s.h), a: clone_copy_vec(&s.a) },
                ),
                None => None,
            };
            Some(MaxStakesEntry { t: e.t, max_stake_x12, max_stake_ah, max_stake_ou })
        },
    }
}

/// Copies a snapshot field by field.
fn clone_snapshot(s: &BookmakerSnapshot) -> (r: BookmakerSnapshot)
    ensures
        snap_eq(r, *s),
{
    BookmakerSnapshot {
        x12_h: s.x12_h,
        x12_x: s.x12_x,
        x12_a: s.x12_a,
        fair_x12_h: s.fair_x12_h,
        fair_x12_x: s.fair_x12_x,
        fair_x12_a: s.fair_x12_a,
        ah_lines: clone_copy_vec(&s.ah_lines),
        ah_h: clone_copy_vec(&s.ah_h),
        ah_a: clone_copy_vec(&s.ah_a),
        fair_ah_h: clone_copy_vec(&s.fair_ah_h),
        fair_ah_a: clone_copy_vec(&s.fair_ah_a),
        ou_lines: clone_copy_vec(&s.ou_lines),
        ou_o: clone_copy_vec(&s.ou_o),
        ou_u: clone_copy_vec(&s.ou_u),
        fair_ou_o: clone_copy_vec(&s.fair_ou_o),
        fair_ou_u: clone_copy_vec(&s.fair_ou_u),
        ids: clone_opt_ids(&s.ids),
        max_stakes: clone_opt_stakes(&s.max_stakes),
        latest_t: s.latest_t,
        timestamp: s.timestamp,
    }
}

/// A fresh, empty bookmaker entry.
fn fresh_book() -> (r: BookmakerOdds)
    ensures
        spec_fresh_book(r),
{
    BookmakerOdds {
        bookie_id: 0,
        decimals: 3,
        current: BookmakerSnapshot {
            x12_h: None,
            x12_x: None,
            x12_a: None,
            fair_x12_h: None,
            fair_x12_x: None,
            fair_x12_a: None,
            ah_lines: Vec::new(),
            ah_h: Vec::new(),
            ah_a: Vec::new(),
            fair_ah_h: Vec::new(),
            fair_ah_a: Vec::new(),
            ou_lines: Vec::new(),
            ou_o: Vec::new(),
            ou_u: Vec::new(),
            fair_ou_o: Vec::new(),
            fair_ou_u: Vec::new(),
            ids: None,
            max_stakes: None,
            latest_t: None,
            timestamp: 0,
        },
        history: Vec::new(),
    }
}

/// Computes the fair pair of one line, exactly as `spec_fair_pair`.
fn fair_pair(h: i32, a: i32, decimals: i32) -> (r: (i32, i32))
    ensures
        (r.0 as int, r.1 as int) == spec_fair_pair(h, a, decimals),
{
    if decimals < 0 || decimals > 9 {
        return (0, 0);
    }
    let mut o: Vec<i32> = Vec::new();
    o.push(h);
    o.push(a);
    proof {
        assert(o@ =~= seq![h, a]);
        assert(spec_ints(o@) =~= seq![h as int, a as int]);
    }
    match crate::fair::calculate_fair_odds(o.as_slice(), decimals, 2) {
        Some(f) => (f[0], f[1]),
        None => (0, 0),
    }
}


/// The fixture stored under `fid`.
pub open spec fn fixture_of(fs: Seq<FixtureData>, fid: i64) -> FixtureData {
    fs[cache_index_of(fs, fid)]
}

/// The bookmaker entry a fixture stores under `label`.
pub open spec fn book_of(f: FixtureData, label: Seq<char>) -> BookmakerOdds {
    f.bookmakers@[fixture_book_index(f, label)].1
}

impl Cache {
    /// Applies one normalized update: evicting the oldest fixture when a new
    /// fixture arrives at capacity, snapshotting the addressed bookmaker's
    /// current odds into its history, overwriting the delivered columns, and
    /// recomputing the fair odds.
    #[verifier::rlimit(60)]
    pub fn apply_update(&mut self, update: OddsUpdate)
        requires
            cache_wf(*old(self)),
            old(self).max_fixtures >= 1,
        ensures
            cache_wf(*final(self)),
            final(self).max_fixtures == old(self).max_fixtures,
            cache_has(final(self).fixtures@, update.fixture_id),
            ({
                let f = fixture_of(final(self).fixtures@, update.fixture_id);
                &&& f.fixture_id == update.fixture_id
                &&& f.last_update == update.timestamp
                &&& fixture_has_book(f, update.bookmaker@)
                &&& ({
                    let b = book_of(f, update.bookmaker@);
                    if cache_has(old(self).fixtures@, update.fixture_id) && fixture_has_book(
                        fixture_of(old(self).fixtures@, update.fixture_id),
                        update.bookmaker@,
                    ) {
                        spec_book_applied(
                            book_of(
                                fixture_of(old(self).fixtures@, update.fixture_id),
                                update.bookmaker@,
                            ),
                            b,
                            update,
                        )
                    } else {
                        exists|fresh: BookmakerOdds|
                            #[trigger] spec_fresh_book(fresh) && spec_book_applied(
                                fresh,
                                b,
                                update,
                            )
                    }
                })
            }),
            // within the addressed fixture every other bookmaker slot is
            // untouched (the addressed one sits at its old position, a fresh
            // one is appended)
            cache_has(old(self).fixtures@, update.fixture_id) ==> ({
                let fo = fixture_of(old(self).fixtures@, update.fixture_id);
                let fx = fixture_of(final(self).fixtures@, update.fixture_id);
                &&& (fixture_has_book(fo, update.bookmaker@) ==> fx.bookmakers@.len()
                    == fo.bookmakers@.len())
                &&& (!fixture_has_book(fo, update.bookmaker@) ==> fx.bookmakers@.len()
                    == fo.bookmakers@.len() + 1)
                &&& forall|j: int|
                    0 <= j < fo.bookmakers@.len() && (#[trigger] fo.bookmakers@[j]).0@
                        != update.bookmaker@ ==> fx.bookmakers@[j] == fo.bookmakers@[j]
            }),
            // no eviction when the fixture is known or there is room
            (cache_has(old(self).fixtures@, update.fixture_id) || old(self).fixtures@.len() < old(
                self,
            ).max_fixtures) ==> forall|fid: i64|
                fid != update.fixture_id ==> ((cache_has(final(self).fixtures@, fid) <==> cache_has(
                    old(self).fixtures@,
                    fid,
                )) && (cache_has(old(self).fixtures@, fid) ==> fixture_of(
                    final(self).fixtures@,
                    fid,
                ) == fixture_of(old(self).fixtures@, fid))),
            // otherwise exactly the oldest fixture is evicted
            (!cache_has(old(self).fixtures@, update.fixture_id) && old(self).fixtures@.len()
                >= old(self).max_fixtures) ==> ({
                let e = spec_oldest_index(old(self).fixtures@);
                &&& is_oldest(old(self).fixtures@, e)
                &&& forall|fid: i64|
                    fid != update.fixture_id ==> ((cache_has(final(self).fixtures@, fid)
                        <==> (cache_has(old(self).fixtures@, fid) && fid != old(
                        self,
                    ).fixtures@[e].fixture_id)) && ((cache_has(old(self).fixtures@, fid) && fid
                        != old(self).fixtures@[e].fixture_id) ==> fixture_of(
                        final(self).fixtures@,
                        fid,
                    ) == fixture_of(old(self).fixtures@, fid)))
            }),
    {
        let ghost fs_orig = self.fixtures@;
        let pre = self.find_fixture(update.fixture_id);
        let ghost mut ev: int = 0;
        if pre.is_none() && self.fixtures.len() >= self.max_fixtures {
            let w = self.evict_oldest();
            proof {
                ev = w@;
            }
        }
        let ghost fs_after_evict = self.fixtures@;
        // get or create the fixture
        let fi: usize = match self.find_fixture(update.fixture_id) {
            Some(i) => i,
            None => {
                let i = self.fixtures.len();
                let f = FixtureData {
                    fixture_id: update.fixture_id,
                    bookmakers: Vec::new(),
                    last_update: 0,
                };
                self.fixtures.push(f);
                proof {
                    assert(forall|k: int|
                        0 <= k < fs_after_evict.len() ==> self.fixtures@[k] == fs_after_evict[k]);
                    assert(cache_wf(*self)) by {
                        assert(self.fixtures@[fs_after_evict.len() as int].fixture_id
                            == update.fixture_id);
                        assert(forall|k: int|
                            0 <= k < fs_after_evict.len() ==> fs_after_evict[k].fixture_id
                                != update.fixture_id);
                        assert(fixture_wf(self.fixtures@[fs_after_evict.len() as int]));
                    }
                }
                i
            },
        };
        let ghost fs1 = self.fixtures@;
        let ghost fiv = fi as int;
        let mut fx = self.fixtures.remove(fi);
        let ghost fx0 = fx;
        // get or create the bookmaker entry
        let bi: usize = match find_book(&fx.bookmakers, update.bookmaker.as_str()) {
            Some(i) => i,
            None => {
                let i = fx.bookmakers.len();
                let label = update.bookmaker.clone();
                fx.bookmakers.push((label, fresh_book()));
                proof {
                    assert(forall|k: int|
                        0 <= k < fx0.bookmakers@.len() ==> fx.bookmakers@[k]
                            == fx0.bookmakers@[k]);
                    assert(fx.bookmakers@[fx0.bookmakers@.len() as int].0@
                        == update.bookmaker@);
                    assert(spec_fresh_book(fx.bookmakers@[fx0.bookmakers@.len() as int].1));
                }
                i
            },
        };
        let ghost bks1 = fx.bookmakers@;
        let ghost biv = bi as int;
        let pair = fx.bookmakers.remove(bi);
        let label = pair.0;
        let mut b = pair.1;
        proof {
            assert(book_wf(bks1[biv].1));
        }
        let u_ts = update.timestamp;
        apply_to_book(&mut b, update);
        fx.last_update = u_ts;
        fx.bookmakers.insert(bi, (label, b));
        let ghost bks_final = fx.bookmakers@;
        proof {
            assert(bks_final =~= bks1.update(biv, bks_final[biv]));
            assert(bks_final[biv].0@ == update.bookmaker@);
            assert(fixture_wf(fx)) by {
                assert(forall|k: int|
                    0 <= k < bks_final.len() && k != biv ==> bks_final[k] == bks1[k]);
                assert(book_wf(bks_final[biv].1));
            }
            lemma_book_index(fx, update.bookmaker@, biv);
        }
        self.fixtures.insert(fi, fx);
        proof {
            let fsF = self.fixtures@;
            assert(fsF =~= fs1.update(fiv, fsF[fiv]));
            assert(fsF[fiv].fixture_id == update.fixture_id);
            assert(fs1[fiv].fixture_id == update.fixture_id);
            assert(cache_wf(*self)) by {
                assert(forall|k: int| 0 <= k < fsF.len() && k != fiv ==> fsF[k] == fs1[k]);
            }
            lemma_cache_index(fsF, update.fixture_id, fiv);
            // the addressed bookmaker entry against the cache before the call
            if cache_has(fs_orig, update.fixture_id) {
                let oi = cache_index_of(fs_orig, update.fixture_id);
                lemma_cache_index(fs_orig, update.fixture_id, oi);
                assert(fs_after_evict == fs_orig);
                assert(fs1 == fs_orig);
                assert(fiv == oi);
                assert(fx0 == fs_orig[oi]);
                if fixture_has_book(fx0, update.bookmaker@) {
                    lemma_book_index(fx0, update.bookmaker@, biv);
                }
                // sibling bookmaker slots of the addressed fixture
                assert(bks1[biv].0@ == update.bookmaker@);
                if biv < fx0.bookmakers@.len() {
                    assert(fixture_has_book(fx0, update.bookmaker@)) by {
                        assert(fx0.bookmakers@[biv].0@ == update.bookmaker@);
                    }
                }
                assert forall|j: int|
                    0 <= j < fx0.bookmakers@.len() && (#[trigger] fx0.bookmakers@[j]).0@
                        != update.bookmaker@ implies bks_final[j] == fx0.bookmakers@[j] by {
                    assert(j != biv);
                    assert(bks_final[j] == bks1[j]);
                }
            }
            // other fixtures survive unchanged
            let ufid = update.fixture_id;
            if cache_has(fs_orig, ufid) || fs_orig.len() < self.max_fixtures {
                assert(fs_after_evict == fs_orig);
                assert forall|fid: i64| fid != ufid implies ((cache_has(fsF, fid) <==> cache_has(
                    fs_orig,
                    fid,
                )) && (cache_has(fs_orig, fid) ==> fixture_of(fsF, fid) == fixture_of(
                    fs_orig,
                    fid,
                ))) by {
                    lemma_update_other(fs1, fsF, fiv, fid);
                    if fs1.len() == fs_orig.len() + 1 {
                        lemma_push_other(fs_orig, fs1, fid);
                    }
                }
            } else {
                let e = ev;
                assert(is_oldest(fs_orig, e) && fs_after_evict == fs_orig.remove(e));
                assert(exists|e2: int| is_oldest(fs_orig, e2)) by {
                    assert(is_oldest(fs_orig, e));
                }
                lemma_oldest_unique(fs_orig, spec_oldest_index(fs_orig), e);
                assert forall|fid: i64| fid != ufid implies ((cache_has(fsF, fid) <==> (cache_has(
                    fs_orig,
                    fid,
                ) && fid != fs_orig[e].fixture_id)) && ((cache_has(fs_orig, fid) && fid
                    != fs_orig[e].fixture_id) ==> fixture_of(fsF, fid) == fixture_of(
                    fs_orig,
                    fid,
                ))) by {
                    lemma_update_other(fs1, fsF, fiv, fid);
                    lemma_push_other(fs_after_evict, fs1, fid);
                    lemma_remove_other(fs_orig, fs_after_evict, e, fid);
                }
            }
        }
    }
}

/// The index of the eviction victim: the unique position minimizing the
/// `(last_update, fixture_id)` pair.
pub open spec fn spec_oldest_index(fs: Seq<FixtureData>) -> int {
    choose|e: int| is_oldest(fs, e)
}

/// The eviction victim's position is unique.
proof fn lemma_oldest_unique(fs: Seq<FixtureData>, i: int, j: int)
    requires
        ids_unique(fs),
        exists|e: int| is_oldest(fs, e),
        is_oldest(fs, j),
        i == spec_oldest_index(fs),
    ensures
        i == j,
{
    assert(is_oldest(fs, i));
    assert(fs[i].last_update < fs[j].last_update || (fs[i].last_update == fs[j].last_update
        && fs[i].fixture_id <= fs[j].fixture_id));
    assert(fs[j].last_update < fs[i].last_update || (fs[j].last_update == fs[i].last_update
        && fs[j].fixture_id <= fs[i].fixture_id));
    assert(fs[i].fixture_id == fs[j].fixture_id);
    if i < j {
        assert(fs[i].fixture_id != fs[j].fixture_id);
    } else if j < i {
        assert(fs[j].fixture_id != fs[i].fixture_id);
    }
}

/// Fixture identifiers pairwise distinct.
pub open spec fn ids_unique(fs: Seq<FixtureData>) -> bool {
    forall|i: int, j: int| 0 <= i < j < fs.len() ==> fs[i].fixture_id != fs[j].fixture_id
}

/// Replacing the entry at `iv` (same fixture id) leaves every other fixture
/// unchanged.
proof fn lemma_update_other(fs1: Seq<FixtureData>, fsF: Seq<FixtureData>, iv: int, fid: i64)
    requires
        ids_unique(fs1),
        ids_unique(fsF),
        0 <= iv < fs1.len(),
        fsF.len() == fs1.len(),
        forall|k: int| 0 <= k < fsF.len() && k != iv ==> fsF[k] == fs1[k],
        fsF[iv].fixture_id == fs1[iv].fixture_id,
        fid != fs1[iv].fixture_id,
    ensures
        cache_has(fsF, fid) <==> cache_has(fs1, fid),
        cache_has(fs1, fid) ==> fixture_of(fsF, fid) == fixture_of(fs1, fid),
{
    if cache_has(fs1, fid) {
        let k = cache_index_of(fs1, fid);
        assert(fs1[k].fixture_id == fid);
        assert(k != iv);
        assert(fsF[k] == fs1[k]);
        lemma_cache_index(fsF, fid, k);
        lemma_cache_index(fs1, fid, k);
    } else {
        if cache_has(fsF, fid) {
            let k = cache_index_of(fsF, fid);
            assert(fsF[k].fixture_id == fid);
            assert(k != iv);
            assert(cache_has(fs1, fid)) by {
                assert(fs1[k].fixture_id == fid);
            }
        }
    }
}

/// Appending a fresh fixture leaves every other fixture unchanged.
proof fn lemma_push_other(fs0: Seq<FixtureData>, fs1: Seq<FixtureData>, fid: i64)
    requires
        ids_unique(fs0),
        fs1.len() == fs0.len() + 1,
        forall|k: int| 0 <= k < fs0.len() ==> fs1[k] == fs0[k],
        fid != fs1[fs0.len() as int].fixture_id,
        !cache_has(fs0, fs1[fs0.len() as int].fixture_id),
    ensures
        cache_has(fs1, fid) <==> cache_has(fs0, fid),
        cache_has(fs0, fid) ==> fixture_of(fs1, fid) == fixture_of(fs0, fid),
{
    if cache_has(fs0, fid) {
        let k = cache_index_of(fs0, fid);
        assert(fs1[k] == fs0[k]);
        assert(ids_unique(fs1)) by {
            assert forall|a: int, b: int|
                0 <= a < b < fs1.len() implies fs1[a].fixture_id != fs1[b].fixture_id by {
                if b == fs0.len() {
                    if fs1[a].fixture_id == fs1[b].fixture_id {
                        assert(fs0[a].fixture_id == fs1[b].fixture_id);
                        assert(cache_has(fs0, fs1[b].fixture_id)) by {
                            assert(fs0[a].fixture_id == fs1[b].fixture_id);
                        }
                    }
                } else {
                    assert(fs1[a] == fs0[a] && fs1[b] == fs0[b]);
                }
            }
        }
        lemma_cache_index(fs1, fid, k);
        lemma_cache_index(fs0, fid, k);
    } else {
        if cache_has(fs1, fid) {
            let k = cache_index_of(fs1, fid);
            assert(k != fs0.len());
            assert(cache_has(fs0, fid)) by {
                assert(fs0[k].fixture_id == fid);
            }
        }
    }
}

/// Removing the fixture at `e` removes exactly that fixture.
proof fn lemma_remove_other(fs0: Seq<FixtureData>, fs1: Seq<FixtureData>, e: int, fid: i64)
    requires
        ids_unique(fs0),
        0 <= e < fs0.len(),
        fs1 == fs0.remove(e),
    ensures
        fid != fs0[e].fixture_id ==> (cache_has(fs1, fid) <==> cache_has(fs0, fid)),
        fid == fs0[e].fixture_id ==> !cache_has(fs1, fid),
        (cache_has(fs0, fid) && fid != fs0[e].fixture_id) ==> fixture_of(fs1, fid) == fixture_of(
            fs0,
            fid,
        ),
{
    assert(ids_unique(fs1)) by {
        assert forall|a: int, b: int|
            0 <= a < b < fs1.len() implies fs1[a].fixture_id != fs1[b].fixture_id by {
            let sa = if a < e {
                a
            } else {
                a + 1
            };
            let sb = if b < e {
                b
            } else {
                b + 1
            };
            assert(fs1[a] == fs0[sa] && fs1[b] == fs0[sb]);
        }
    }
    if fid == fs0[e].fixture_id {
        if cache_has(fs1, fid) {
            let k = cache_index_of(fs1, fid);
            let sk = if k < e {
                k
            } else {
                k + 1
            };
            assert(fs1[k] == fs0[sk]);
            assert(sk != e);
            assert(fs0[sk].fixture_id == fs0[e].fixture_id);
            if sk < e {
                assert(fs0[sk].fixture_id != fs0[e].fixture_id);
            } else {
                assert(fs0[e].fixture_id != fs0[sk].fixture_id);
            }
        }
    } else {
        if cache_has(fs0, fid) {
            let k = cache_index_of(fs0, fid);
            assert(k != e);
            let nk = if k < e {
                k
            } else {
                k - 1
            };
            assert(fs1[nk] == fs0[k]);
            lemma_cache_index(fs1, fid, nk);
            lemma_cache_index(fs0, fid, k);
        } else {
            if cache_has(fs1, fid) {
                let k = cache_index_of(fs1, fid);
                let sk = if k < e {
                    k
                } else {
                    k + 1
                };
                assert(fs1[k] == fs0[sk]);
                assert(cache_has(fs0, fid)) by {
                    assert(fs0[sk].fixture_id == fid);
                }
            }
        }
    }
}

/// Position of the bookmaker entry under `label`.
fn find_book(bks: &Vec<(String, BookmakerOdds)>, label: &str) -> (r: Option<usize>)
    ensures
        match r {
            Some(i) => i < bks@.len() && bks@[i as int].0@ == label@,
            None => forall|k: int| 0 <= k < bks@.len() ==> bks@[k].0@ != label@,
        },
{
    let n = bks.len();
    let mut i: usize = 0;
    while i < n
        invariant
            0 <= i <= n == bks@.len(),
            forall|k: int| 0 <= k < i ==> bks@[k].0@ != label@,
        decreases n - i,
    {
        if str_eq(bks[i].0.as_str(), label) {
            return Some(i);
        }
        i = i + 1;
    }
    None
}

/// Any index holding the label is the fixture's book index.
proof fn lemma_book_index(f: FixtureData, label: Seq<char>, i: int)
    requires
        forall|a: int, b: int| 0 <= a < b < f.bookmakers@.len() ==> f.bookmakers@[a].0@ != f.bookmakers@[b].0@,
        0 <= i < f.bookmakers@.len(),
        f.bookmakers@[i].0@ == label,
    ensures
        fixture_has_book(f, label),
        fixture_book_index(f, label) == i,
{
    assert(fixture_has_book(f, label)) by {
        assert(f.bookmakers@[i].0@ == label);
    }
    let j = fixture_book_index(f, label);
    if j < i {
        assert(f.bookmakers@[j].0@ != f.bookmakers@[i].0@);
    } else if i < j {
        assert(f.bookmakers@[i].0@ != f.bookmakers@[j].0@);
    }
}

/// Builds the two fair vectors of a handicap or totals market, one pair per
/// line.
fn fair_vectors(lines: &Vec<i64>, hv: &Vec<i32>, av: &Vec<i32>, decimals: i32) -> (r: (
    Vec<i32>,
    Vec<i32>,
))
    ensures
        r.0@.len() == lines@.len() && r.1@.len() == lines@.len(),
        forall|i: int|
            0 <= i < lines@.len() ==> (r.0@[i] as int, r.1@[i] as int) == spec_fair_pair(
                odds_at(hv@, i),
                odds_at(av@, i),
                decimals,
            ),
{
    let mut fh: Vec<i32> = Vec::new();
    let mut fa: Vec<i32> = Vec::new();
    let n = lines.len();
    let mut i: usize = 0;
    while i < n
        invariant
            0 <= i <= n == lines@.len(),
            fh@.len() == i && fa@.len() == i,
            forall|k: int|
                0 <= k < i ==> (fh@[k] as int, fa@[k] as int) == spec_fair_pair(
                    odds_at(hv@, k),
                    odds_at(av@, k),
                    decimals,
                ),
        decreases n - i,
    {
        let h = if i < hv.len() {
            hv[i]
        } else {
            0
        };
        let a = if i < av.len() {
            av[i]
        } else {
            0
        };
        let (x, y) = fair_pair(h, a, decimals);
        fh.push(x);
        fa.push(y);
        i = i + 1;
    }
    (fh, fa)
}


/// Applies one update to a single bookmaker entry: history push, delivered
/// columns, and fair odds.
fn apply_to_book(b: &mut BookmakerOdds, update: OddsUpdate)
    requires
        old(b).history@.len() <= 20,
    ensures
        spec_book_applied(*old(b), *final(b), update),
        final(b).history@.len() <= 20,
{
    let ghost b0 = *b;
    push_history(b);
    let decimals = update.decimals;
    b.bookie_id = update.bookie_id;
    b.decimals = update.decimals;
    apply_columns(&mut b.current, update);
    apply_fair(&mut b.current, decimals);
    proof {
        assert(spec_columns_applied(b0.current, b.current, update));
        assert(spec_fair_applied(b0.current, b.current, decimals));
        assert(spec_history_applied(b0, *b));
        assert(spec_book_applied(b0, *b, update));
    }
}

/// Pushes the populated current snapshot to the front of the history,
/// capped at twenty; fair and raw columns stay untouched.
fn push_history(b: &mut BookmakerOdds)
    requires
        old(b).history@.len() <= 20,
    ensures
        spec_history_applied(*old(b), *final(b)),
        final(b).history@.len() <= 20,
        final(b).current == old(b).current,
        final(b).bookie_id == old(b).bookie_id && final(b).decimals == old(b).decimals,
{
    let ghost b0 = *b;
    if b.current.timestamp > 0 {
        let snap = clone_snapshot(&b.current);
        b.history.insert(0, snap);
        if b.history.len() > 20 {
            let _ = b.history.pop();
        }
        proof {
            if b0.history@.len() + 1 <= 20 {
                assert(b.history@ =~= seq![snap].add(b0.history@));
            } else {
                assert(b.history@ =~= seq![snap].add(b0.history@).drop_last());
            }
        }
    }
}

/// Overwrites the delivered columns of a snapshot; the fair columns stay
/// untouched.
fn apply_columns(s: &mut BookmakerSnapshot, update: OddsUpdate)
    ensures
        spec_columns_applied(*old(s), *final(s), update),
        final(s).fair_x12_h == old(s).fair_x12_h && final(s).fair_x12_x == old(s).fair_x12_x
            && final(s).fair_x12_a == old(s).fair_x12_a,
        final(s).fair_ah_h@ == old(s).fair_ah_h@ && final(s).fair_ah_a@ == old(s).fair_ah_a@,
        final(s).fair_ou_o@ == old(s).fair_ou_o@ && final(s).fair_ou_u@ == old(s).fair_ou_u@,
{
    s.timestamp = update.timestamp;
    match update.x12 {
        Some(v) => {
            if v.len() == 3 {
                s.x12_h = Some(v[0]);
                s.x12_x = Some(v[1]);
                s.x12_a = Some(v[2]);
            }
        },
        None => {},
    }
    match update.ah_lines {
        Some(v) => {
            s.ah_lines = v;
        },
        None => {},
    }
    match update.ah_h {
        Some(v) => {
            s.ah_h = v;
        },
        None => {},
    }
    match update.ah_a {
        Some(v) => {
            s.ah_a = v;
        },
        None => {},
    }
    match update.ou_lines {
        Some(v) => {
            s.ou_lines = v;
        },
        None => {},
    }
    match update.ou_o {
        Some(v) => {
            s.ou_o = v;
        },
        None => {},
    }
    match update.ou_u {
        Some(v) => {
            s.ou_u = v;
        },
        None => {},
    }
    match update.ids {
        Some(e) => {
            s.ids = Some(e);
        },
        None => {},
    }
    match update.max_stakes {
        Some(e) => {
            s.max_stakes = Some(e);
        },
        None => {},
    }
    match update.latest_t {
        Some(e) => {
            s.latest_t = Some(e);
        },
        None => {},
    }
}

/// Recomputes the fair columns from the raw columns of a snapshot; the raw
/// columns stay untouched.
fn apply_fair(s: &mut BookmakerSnapshot, decimals: i32)
    ensures
        spec_fair_applied(*old(s), *final(s), decimals),
        spec_columns_unchanged(*old(s), *final(s)),
{
    if s.x12_h.is_some() && s.x12_x.is_some() && s.x12_a.is_some() {
        let h = match s.x12_h {
            Some(v) => v,
            None => 0,
        };
        let x = match s.x12_x {
            Some(v) => v,
            None => 0,
        };
        let a = match s.x12_a {
            Some(v) => v,
            None => 0,
        };
        if decimals >= 0 && decimals <= 9 {
            let mut o: Vec<i32> = Vec::new();
            o.push(h);
            o.push(x);
            o.push(a);
            proof {
                assert(o@ =~= seq![h, x, a]);
                assert(spec_ints(o@) =~= seq![h as int, x as int, a as int]);
            }
            match crate::fair::calculate_fair_odds(o.as_slice(), decimals, 3) {
                Some(f) => {
                    s.fair_x12_h = Some(f[0]);
                    s.fair_x12_x = Some(f[1]);
                    s.fair_x12_a = Some(f[2]);
                },
                None => {},
            }
        }
    }
    let (fah, faa) = fair_vectors(&s.ah_lines, &s.ah_h, &s.ah_a, decimals);
    s.fair_ah_h = fah;
    s.fair_ah_a = faa;
    let (fou, fuu) = fair_vectors(&s.ou_lines, &s.ou_o, &s.ou_u, decimals);
    s.fair_ou_o = fou;
    s.fair_ou_u = fuu;
}

/// The raw columns and timestamps of two snapshots agree.
pub open spec fn spec_columns_unchanged(a: BookmakerSnapshot, b: BookmakerSnapshot) -> bool {
    &&& b.x12_h == a.x12_h && b.x12_x == a.x12_x && b.x12_a == a.x12_a
    &&& b.ah_lines@ == a.ah_lines@ && b.ah_h@ == a.ah_h@ && b.ah_a@ == a.ah_a@
    &&& b.ou_lines@ == a.ou_lines@ && b.ou_o@ == a.ou_o@ && b.ou_u@ == a.ou_u@
    &&& opt_ids_eq(b.ids, a.ids) && opt_stakes_eq(b.max_stakes, a.max_stakes) && b.latest_t
        == a.latest_t
    &&& b.timestamp == a.timestamp
}

} // verus!

//! The canonical odds record: typed time-ordered columns, the
//! append-or-replace-by-`t` merge, and the Pinnacle history compaction that
//! skips entries equal to the latest one up to their timestamp.
//!
//! Odds are integer-encoded at three decimals; lines and stakes are carried
//! in thousandths.

use vstd::prelude::*;

verus! {

/// Upstream outcome identifiers per market type.
#[derive(Debug, Clone)]
pub struct LineIds {
    pub x12: Vec<String>,
    pub ah: Vec<String>,
    pub ou: Vec<String>,
}

/// One entry of the `ids` column.
#[derive(Debug, Clone)]
pub struct IdsEntry {
    pub t: i64,
    pub line_id: Option<String>,
    pub line_ids: LineIds,
}

/// One entry of the `lines` column: the line sets active from `t` on,
/// in thousandths.
#[derive(Debug, Clone)]
pub struct LinesEntry {
    pub t: i64,
    pub ah: Option<Vec<i64>>,
    pub ou: Option<Vec<i64>>,
}

/// Home/over and away/under stakes aligned with the line set,
/// in thousandths.
#[derive(Debug, Clone)]
pub struct MaxStakeAhOu {
    pub h: Vec<i64>,
    pub a: Vec<i64>,
}

/// One entry of the `max_stakes` column; only the current liquidity is
/// retained.
#[derive(Debug, Clone)]
pub struct MaxStakesEntry {
    pub t: i64,
    pub max_stake_x12: Option<Vec<i64>>,
    pub max_stake_ah: Option<MaxStakeAhOu>,
    pub max_stake_ou: Option<MaxStakeAhOu>,
}

/// The last-write time per column.
#[derive(Debug, Clone, Copy, PartialEq, Eq, Structural)]
pub struct LatestT {
    pub x12_ts: Option<i64>,
    pub ah_ts: Option<i64>,
    pub ou_ts: Option<i64>,
    pub lines_ts: Option<i64>,
    pub ids_ts: Option<i64>,
    pub stakes_ts: Option<i64>,
}

/// One row of an odds column: integer-encoded odds at time `t`.  A
/// three-way row carries `x12`; handicap rows carry the two sides aligned
/// with the line set; totals rows likewise.
#[derive(Debug, Clone)]
pub struct OddsRow {
    pub t: i64,
    pub x12: Option<Vec<i32>>,
    pub ah_h: Option<Vec<i32>>,
    pub ah_a: Option<Vec<i32>>,
    pub ou_o: Option<Vec<i32>>,
    pub ou_u: Option<Vec<i32>>,
}

/// Strictly ascending timestamps: at most one row per `t`.
pub open spec fn rows_sorted(rs: Seq<OddsRow>) -> bool {
    forall|i: int, j: int| 0 <= i < j < rs.len() ==> rs[i].t < rs[j].t
}

/// Some row carries timestamp `t`.
pub open spec fn rows_have_t(rs: Seq<OddsRow>, t: i64) -> bool {
    exists|i: int| 0 <= i < rs.len() && rs[i].t == t
}

/// Index of the row with timestamp `t`.
pub open spec fn rows_index_of(rs: Seq<OddsRow>, t: i64) -> int {
    choose|i: int| 0 <= i < rs.len() && rs[i].t == t
}

/// Number of rows with a timestamp strictly below `t`.
pub open spec fn spec_row_pos(rs: Seq<OddsRow>, t: i64) -> int
    decreases rs.len(),
{
    if rs.len() == 0 {
        0
    } else if rs[0].t >= t {
        0
    } else {
        1 + spec_row_pos(rs.drop_first(), t)
    }
}

/// The column after an append-or-replace of `new`: an existing row with the
/// same `t` is replaced in place, otherwise the row is inserted at its
/// sorted position.
pub open spec fn spec_merge_row(rs: Seq<OddsRow>, new: OddsRow) -> Seq<OddsRow> {
    if rows_have_t(rs, new.t) {
        rs.update(rows_index_of(rs, new.t), new)
    } else {
        rs.insert(spec_row_pos(rs, new.t), new)
    }
}

/// Any index carrying `t` in a sorted column is the row index.
proof fn lemma_rows_index(rs: Seq<OddsRow>, t: i64, i: int)
    requires
        rows_sorted(rs),
        0 <= i < rs.len(),
        rs[i].t == t,
    ensures
        rows_have_t(rs, t),
        rows_index_of(rs, t) == i,
{
    assert(rows_have_t(rs, t)) by {
        assert(rs[i].t == t);
    }
    let j = rows_index_of(rs, t);
    if j < i {
        assert(rs[j].t < rs[i].t);
    } else if i < j {
        assert(rs[i].t < rs[j].t);
    }
}

/// The scan position equals `spec_row_pos` when no row carries `t`.
proof fn lemma_row_pos(rs: Seq<OddsRow>, t: i64, i: int)
    requires
        rows_sorted(rs),
        0 <= i <= rs.len(),
        forall|k: int| 0 <= k < i ==> rs[k].t < t,
        i < rs.len() ==> rs[i].t > t,
    ensures
        spec_row_pos(rs, t) == i,
    decreases rs.len(),
{
    if rs.len() > 0 {
        if i == 0 {
        } else {
            assert(rs[0].t < t);
            let u = rs.drop_first();
            assert(rows_sorted(u)) by {
                assert(forall|k: int| 0 <= k < u.len() ==> u[k] == rs[k + 1]);
            }
            assert(forall|k: int| 0 <= k < i - 1 ==> u[k] == rs[k + 1] && u[k].t < t);
            assert(i - 1 < u.len() ==> u[i - 1] == rs[i]);
            lemma_row_pos(u, t, i - 1);
        }
    }
}

/// Appends or replaces one row of an odds column, keeping it sorted by `t`.
pub fn merge_odds_entry(rows: &mut Vec<OddsRow>, new: OddsRow)
    requires
        rows_sorted(old(rows)@),
    ensures
        final(rows)@ == spec_merge_row(old(rows)@, new),
        rows_sorted(final(rows)@),
{
    let ghost rs = rows@;
    let t = new.t;
    let n = rows.len();
    let mut i: usize = 0;
    while i < n && rows[i].t < t
        invariant
            0 <= i <= n == rows@.len(),
            rows@ == rs,
            forall|k: int| 0 <= k < i ==> rs[k].t < t,
        decreases n - i,
    {
        i = i + 1;
    }
    if i < n && rows[i].t == t {
        proof {
            lemma_rows_index(rs, t, i as int);
        }
        rows.set(i, new);
        proof {
            assert(rows@ =~= rs.update(i as int, new));
            assert forall|a: int, b: int| 0 <= a < b < rows@.len() implies rows@[a].t
                < rows@[b].t by {
                assert(rs[a].t < rs[b].t);
            }
        }
    } else {
        proof {
            assert forall|k: int| i <= k < rs.len() implies rs[k].t > t by {
                if k > i {
                    assert(rs[i as int].t < rs[k].t);
                }
            }
            assert forall|k: int| 0 <= k < rs.len() implies rs[k].t != t by {
                if k < i {
                    assert(rs[k].t < t);
                }
            }
            assert(!rows_have_t(rs, t));
            lemma_row_pos(rs, t, i as int);
        }
        rows.insert(i, new);
        proof {
            let u = rs.insert(i as int, new);
            assert(rows@ =~= u);
            assert forall|a: int, b: int| 0 <= a < b < u.len() implies u[a].t < u[b].t by {
                if a < i {
                    assert(u[a] == rs[a]);
                } else if a == i {
                    assert(u[a] == new);
                } else {
                    assert(u[a] == rs[a - 1]);
                }
                if b < i {
                    assert(u[b] == rs[b]);
                } else if b == i {
                    assert(u[b] == new);
                } else {
                    assert(u[b] == rs[b - 1]);
                }
            }
        }
    }
}

/// After a merge the new row stands exactly at its timestamp.
pub proof fn lemma_merge_result(rs: Seq<OddsRow>, new: OddsRow)
    requires
        rows_sorted(rs),
        rows_sorted(spec_merge_row(rs, new)),
    ensures
        rows_have_t(spec_merge_row(rs, new), new.t),
        spec_merge_row(rs, new)[rows_index_of(spec_merge_row(rs, new), new.t)] == new,
{
    let out = spec_merge_row(rs, new);
    if rows_have_t(rs, new.t) {
        let i = rows_index_of(rs, new.t);
        assert(0 <= i < rs.len() && rs[i].t == new.t);
        assert(out[i] == new);
        lemma_rows_index(out, new.t, i);
    } else {
        let p = spec_row_pos(rs, new.t);
        lemma_row_pos_bounds(rs, new.t);
        assert(out[p] == new);
        lemma_rows_index(out, new.t, p);
    }
}

/// `spec_row_pos` stays within the column.
proof fn lemma_row_pos_bounds(rs: Seq<OddsRow>, t: i64)
    ensures
        0 <= spec_row_pos(rs, t) <= rs.len(),
    decreases rs.len(),
{
    if rs.len() > 0 && rs[0].t < t {
        lemma_row_pos_bounds(rs.drop_first(), t);
    }
}

/// Equality of two `i32` vectors through their views.
pub fn vec_i32_eq(a: &Vec<i32>, b: &Vec<i32>) -> (r: bool)
    ensures
        r == (a@ == b@),
{
    if a.len() != b.len() {
        proof {
            assert(a@ !== b@) by {
                if a@ == b@ {
                    assert(a@.len() == b@.len());
                }
            }
        }
        return false;
    }
    let n = a.len();
    let mut i: usize = 0;
    while i < n
        invariant
            0 <= i <= n == a@.len() == b@.len(),
            forall|k: int| 0 <= k < i ==> a@[k] == b@[k],
        decreases n - i,
    {
        if a[i] != b[i] {
            return false;
        }
        i = i + 1;
    }
    proof {
        assert(a@ =~= b@);
    }
    true
}

/// Equality of two optional `i32` vectors through their views.
pub open spec fn spec_opt_vec_eq(a: Option<Vec<i32>>, b: Option<Vec<i32>>) -> bool {
    match (a, b) {
        (Some(x), Some(y)) => x@ == y@,
        (None, None) => true,
        _ => false,
    }
}

/// Equality of two optional `i32` vectors.
pub fn opt_vec_i32_eq(a: &Option<Vec<i32>>, b: &Option<Vec<i32>>) -> (r: bool)
    ensures
        r == spec_opt_vec_eq(*a, *b),
{
    match (a, b) {
        (Some(x), Some(y)) => vec_i32_eq(x, y),
        (None, None) => true,
        _ => false,
    }
}

/// Two odds rows carry the same payload, ignoring their timestamps.
pub open spec fn spec_row_same_payload(a: OddsRow, b: OddsRow) -> bool {
    &&& spec_opt_vec_eq(a.x12, b.x12)
    &&& spec_opt_vec_eq(a.ah_h, b.ah_h)
    &&& spec_opt_vec_eq(a.ah_a, b.ah_a)
    &&& spec_opt_vec_eq(a.ou_o, b.ou_o)
    &&& spec_opt_vec_eq(a.ou_u, b.ou_u)
}

impl OddsRow {
    /// Payload equality, ignoring `t`: the Pinnacle path compacts history by
    /// skipping a new row equal to the latest one up to its timestamp.
    pub fn same_payload(&self, other: &OddsRow) -> (r: bool)
        ensures
            r == spec_row_same_payload(*self, *other),
    {
        opt_vec_i32_eq(&self.x12, &other.x12) && opt_vec_i32_eq(&self.ah_h, &other.ah_h)
            && opt_vec_i32_eq(&self.ah_a, &other.ah_a) && opt_vec_i32_eq(&self.ou_o, &other.ou_o)
            && opt_vec_i32_eq(&self.ou_u, &other.ou_u)
    }
}

/// The Pinnacle compaction of one odds column: without a new row the column
/// stands; a first row is appended; otherwise the new row is appended only
/// when its payload differs from the latest row's.
pub open spec fn spec_compact_append(rs: Seq<OddsRow>, new: Option<OddsRow>) -> Seq<OddsRow> {
    match new {
        None => rs,
        Some(row) => {
            if rs.len() == 0 {
                rs.push(row)
            } else if spec_row_same_payload(rs.last(), row) {
                rs
            } else {
                rs.push(row)
            }
        },
    }
}

/// Appends a new Pinnacle row to a column unless it repeats the latest
/// payload.  Returns whether the column grew.
pub fn merge_history(rows: &mut Vec<OddsRow>, new: Option<OddsRow>) -> (grew: bool)
    ensures
        final(rows)@ == spec_compact_append(old(rows)@, new),
        grew == (final(rows)@.len() > old(rows)@.len()),
{
    match new {
        None => {
            false
        },
        Some(row) => {
            if rows.len() == 0 {
                rows.push(row);
                true
            } else {
                let last = rows.len() - 1;
                let same = rows[last].same_payload(&row);
                if same {
                    false
                } else {
                    rows.push(row);
                    true
                }
            }
        },
    }
}

} // verus!

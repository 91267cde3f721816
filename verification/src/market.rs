//! Monaco market metadata: market types, mappings from upstream markets to
//! fixtures, and the extraction of handicap / totals line values from market
//! names.

use vstd::prelude::*;

use crate::strutil::{parse_milli, spec_parse_milli, str_eq};

verus! {

/// The three canonical market types.
#[derive(Debug, Clone, Copy, PartialEq, Eq, Structural)]
pub enum MarketType {
    X12,
    Ah,
    Ou,
}

/// Maps an upstream market-type identifier to the canonical market type.
pub fn map_market_type(market_type_id: &str) -> (r: Option<MarketType>)
    ensures
        r == Some(MarketType::X12) <==> market_type_id@ == "FOOTBALL_FULL_TIME_RESULT"@,
        r == Some(MarketType::Ah) <==> market_type_id@ == "FOOTBALL_FULL_TIME_RESULT_HANDICAP"@,
        r == Some(MarketType::Ou) <==> market_type_id@ == "FOOTBALL_OVER_UNDER_TOTAL_GOALS"@,
        r is None <==> (market_type_id@ != "FOOTBALL_FULL_TIME_RESULT"@ && market_type_id@
            != "FOOTBALL_FULL_TIME_RESULT_HANDICAP"@ && market_type_id@
            != "FOOTBALL_OVER_UNDER_TOTAL_GOALS"@),
{
    proof {
        reveal_strlit("FOOTBALL_FULL_TIME_RESULT");
        reveal_strlit("FOOTBALL_FULL_TIME_RESULT_HANDICAP");
        reveal_strlit("FOOTBALL_OVER_UNDER_TOTAL_GOALS");
        assert("FOOTBALL_FULL_TIME_RESULT"@.len() == 25);
        assert("FOOTBALL_FULL_TIME_RESULT_HANDICAP"@.len() == 34);
        assert("FOOTBALL_OVER_UNDER_TOTAL_GOALS"@.len() == 31);
    }
    if str_eq(market_type_id, "FOOTBALL_FULL_TIME_RESULT") {
        Some(MarketType::X12)
    } else if str_eq(market_type_id, "FOOTBALL_FULL_TIME_RESULT_HANDICAP") {
        Some(MarketType::Ah)
    } else if str_eq(market_type_id, "FOOTBALL_OVER_UNDER_TOTAL_GOALS") {
        Some(MarketType::Ou)
    } else {
        None
    }
}

/// A reference block of the Monaco API: a list of identifiers and the name
/// of the entity they refer to.
#[derive(Debug, Clone)]
pub struct MarketReference {
    pub ids: Vec<String>,
    pub ref_type: String,
}

/// One outcome of a Monaco market.
#[derive(Debug, Clone)]
pub struct MonacoOutcome {
    pub id: String,
    pub title: String,
    pub ordering: i32,
}

/// An authenticated Monaco session as returned by the venue.
#[derive(Debug, Clone)]
pub struct MonacoSession {
    pub access_token: String,
    pub refresh_token: String,
    pub access_expires_at: String,
    pub refresh_expires_at: String,
}

/// A Monaco market as far as the book-keeping reads it.  Prices and the
/// optional totals line are carried in thousandths.
#[derive(Debug, Clone)]
pub struct MonacoMarket {
    pub id: String,
    pub name: String,
    pub market_type: MarketReference,
    pub event: MarketReference,
    pub market_outcomes: MarketReference,
    pub prices: Option<Vec<crate::order_book::MonacoPrice>>,
    pub status: Option<String>,
    pub market_value: Option<String>,
    pub in_play_status: Option<String>,
}

/// The mapping of one upstream market onto the canonical model: its type,
/// its line value (for handicap and totals markets, in thousandths), the
/// fixture it resolves to, and the outcome-to-index assignment.
#[derive(Debug, Clone)]
pub struct MarketMapping {
    pub event_id: String,
    pub market_id: String,
    pub market_type_id: String,
    pub market_type: MarketType,
    pub name: String,
    pub line_milli: Option<i64>,
    pub line_index: Option<usize>,
    pub fixture_id: Option<i64>,
    pub outcome_mappings: Vec<(String, usize)>,
}

/// Distinct outcome identifiers are assigned distinct indices.
pub open spec fn outcome_mappings_wf(m: Seq<(Seq<char>, int)>) -> bool {
    forall|i: int, j: int|
        0 <= i < j < m.len() ==> m[i].0 != m[j].0 && m[i].1 != m[j].1
}

/// The index assigned to an outcome identifier, if any.
pub open spec fn spec_outcome_index(m: Seq<(Seq<char>, int)>, id: Seq<char>) -> Option<int> {
    if exists|i: int| 0 <= i < m.len() && m[i].0 == id {
        Some(m[choose|i: int| 0 <= i < m.len() && m[i].0 == id].1)
    } else {
        None
    }
}

/// View of an outcome-mapping vector.
pub open spec fn outcome_mappings_view(m: Seq<(String, usize)>) -> Seq<(Seq<char>, int)> {
    m.map_values(|p: (String, usize)| (p.0@, p.1 as int))
}

/// The first capture group that `pat` finds in `text`, or nothing when the
/// pattern is invalid or does not match: a function of the two strings alone.
pub uninterp spec fn regex_first_capture(pat: Seq<char>, text: Seq<char>) -> Option<Seq<char>>;

/// Relies on `regex::Regex::new`, `regex::Regex::captures`,
/// `regex::Captures::get` and `regex::Match::as_str`: the first capture
/// group of `pat` in `text`, which depends on the two strings alone.
#[verifier::external_body]
fn capture_first(pat: &str, text: &str) -> (r: Option<String>)
    ensures
        match r {
            Some(c) => regex_first_capture(pat@, text@) == Some(c@),
            None => regex_first_capture(pat@, text@) is None,
        },
{
    let re = match regex::Regex::new(pat) {
        Ok(re) => re,
        Err(_) => return None,
    };
    re.captures(text).and_then(|c| c.get(1)).map(|m| m.as_str().to_string())
}

/// The handicap line named by a market name, in thousandths.
pub open spec fn spec_handicap_line(name: Seq<char>) -> Option<int> {
    match regex_first_capture("Goal Handicap ([\\+\\-\\d\\.]+)"@, name) {
        Some(c) => spec_parse_milli(c),
        None => None,
    }
}

/// The totals line named by a market name, in thousandths.
pub open spec fn spec_total_line_from_name(name: Seq<char>) -> Option<int> {
    match regex_first_capture("Total Goals Over/Under ([\\d.]+)"@, name) {
        Some(c) => spec_parse_milli(c),
        None => None,
    }
}

/// The totals line of a market: its explicit market value when present,
/// otherwise the value named in the market name.
pub open spec fn spec_total_line(market_value: Option<String>, name: Seq<char>) -> Option<int> {
    match market_value {
        Some(mv) => spec_parse_milli(mv@),
        None => spec_total_line_from_name(name),
    }
}

/// Extracts the handicap line value of a market from its name
/// (`"Goal Handicap +1.5"`), in thousandths.
pub fn get_handicap_value(market: &MonacoMarket) -> (r: Option<i64>)
    ensures
        match r {
            Some(v) => spec_handicap_line(market.name@) == Some(v as int),
            None => spec_handicap_line(market.name@) is None,
        },
{
    match capture_first("Goal Handicap ([\\+\\-\\d\\.]+)", market.name.as_str()) {
        Some(c) => parse_milli(c.as_str()),
        None => None,
    }
}

/// Extracts the totals line value of a market, preferring the explicit
/// market value over the name (`"Total Goals Over/Under 2.5"`).
pub fn get_total_value(market: &MonacoMarket) -> (r: Option<i64>)
    ensures
        match r {
            Some(v) => spec_total_line(market.market_value, market.name@) == Some(v as int),
            None => spec_total_line(market.market_value, market.name@) is None,
        },
{
    match &market.market_value {
        Some(mv) => parse_milli(mv.as_str()),
        None => {
            match capture_first("Total Goals Over/Under ([\\d.]+)", market.name.as_str()) {
                Some(c) => parse_milli(c.as_str()),
                None => None,
            }
        },
    }
}

/// Position of `id` among the accumulated outcome pairs.
fn find_key(r: &Vec<(String, usize)>, id: &str) -> (o: Option<usize>)
    ensures
        match o {
            Some(k) => k < r@.len() && r@[k as int].0@ == id@,
            None => forall|t: int| 0 <= t < r@.len() ==> r@[t].0@ != id@,
        },
{
    let m = r.len();
    let mut k: usize = 0;
    while k < m
        invariant
            0 <= k <= m == r@.len(),
            forall|t: int| 0 <= t < k ==> r@[t].0@ != id@,
        decreases m - k,
    {
        if str_eq(r[k].0.as_str(), id) {
            return Some(k);
        }
        k = k + 1;
    }
    None
}

/// Builds the outcome-to-index assignment from the market's outcome list:
/// position in the list, later occurrences of a duplicate identifier
/// winning.  The result maps distinct identifiers to distinct indices.
pub fn build_outcome_mappings(ids: &Vec<String>) -> (r: Vec<(String, usize)>)
    ensures
        outcome_mappings_wf(outcome_mappings_view(r@)),
        forall|k: int|
            0 <= k < r@.len() ==> r@[k].1 < ids@.len() && ids@[r@[k].1 as int]@ == r@[k].0@,
        forall|j: int|
            0 <= j < ids@.len() ==> spec_outcome_index(
                outcome_mappings_view(r@),
                ids@[j]@,
            ) is Some,
{
    let mut r: Vec<(String, usize)> = Vec::new();
    let n = ids.len();
    let mut i: usize = 0;
    while i < n
        invariant
            0 <= i <= n == ids@.len(),
            outcome_mappings_wf(outcome_mappings_view(r@)),
            forall|k: int|
                0 <= k < r@.len() ==> ids@[r@[k].1 as int]@ == r@[k].0@,
            forall|j: int|
                0 <= j < i ==> spec_outcome_index(
                    outcome_mappings_view(r@),
                    ids@[j]@,
                ) is Some,
            forall|k: int| 0 <= k < r@.len() ==> r@[k].1 < i,
        decreases n - i,
    {
        let ghost rv0 = outcome_mappings_view(r@);
        let pos = find_key(&r, ids[i].as_str());
        if pos.is_some() {
            let k = pos.unwrap();
            let id = ids[i].clone();
            r.set(k, (id, i));
            proof {
                let rv = outcome_mappings_view(r@);
                assert(rv =~= rv0.update(k as int, (ids@[i as int]@, i as int)));
                assert(outcome_mappings_wf(rv)) by {
                    assert(forall|t: int| 0 <= t < rv.len() && t != k ==> rv[t] == rv0[t]);
                    assert(forall|t: int| 0 <= t < rv.len() && t != k ==> rv0[t].1 < i as int);
                    assert forall|a: int, b: int| 0 <= a < b < rv.len() implies rv[a].0 != rv[b].0
                        && rv[a].1 != rv[b].1 by {
                        if a != k && b != k {
                            assert(rv0[a].0 != rv0[b].0 && rv0[a].1 != rv0[b].1);
                        } else if a == k {
                            assert(rv0[a].0 == rv[a].0);
                            assert(rv0[a].0 != rv0[b].0);
                        } else {
                            assert(rv0[b].0 == rv[b].0);
                            assert(rv0[a].0 != rv0[b].0);
                        }
                    }
                }
                assert forall|j: int|
                    0 <= j < i + 1 implies spec_outcome_index(
                    outcome_mappings_view(r@),
                    ids@[j]@,
                ) is Some by {
                    let rv = outcome_mappings_view(r@);
                    if j == i as int {
                        assert(rv[k as int].0 == ids@[j]@);
                    } else {
                        let t = choose|t: int| 0 <= t < rv0.len() && rv0[t].0 == ids@[j]@;
                        if t == k {
                            assert(rv[k as int].0 == ids@[i as int]@);
                            if ids@[j]@ == ids@[i as int]@ {
                                assert(rv[k as int].0 == ids@[j]@);
                            } else {
                                assert(rv0[t].0 == ids@[j]@);
                                assert(rv0[t].0 == rv0[k as int].0);
                                assert(rv0[k as int].0 == ids@[j]@);
                                assert(rv[k as int].0 == ids@[i as int]@);
                                assert(false) by {
                                    assert(rv0[k as int].0 == r@[k as int].0@);
                                }
                            }
                        } else {
                            assert(rv[t].0 == ids@[j]@);
                        }
                    }
                }
            }
        } else {
            let id = ids[i].clone();
            r.push((id, i));
            proof {
                let rv = outcome_mappings_view(r@);
                assert(rv =~= rv0.push((ids@[i as int]@, i as int)));
                assert(outcome_mappings_wf(rv)) by {
                    assert(forall|t: int| 0 <= t < rv0.len() ==> rv[t] == rv0[t]);
                    assert(forall|t: int| 0 <= t < rv0.len() ==> rv0[t].1 < i as int);
                    assert(forall|t: int| 0 <= t < rv0.len() ==> rv0[t].0 != ids@[i as int]@);
                }
                assert forall|j: int|
                    0 <= j < i + 1 implies spec_outcome_index(
                    outcome_mappings_view(r@),
                    ids@[j]@,
                ) is Some by {
                    let rv = outcome_mappings_view(r@);
                    if j == i as int {
                        assert(rv[rv0.len() as int].0 == ids@[j]@);
                    } else {
                        let t = choose|t: int| 0 <= t < rv0.len() && rv0[t].0 == ids@[j]@;
                        assert(rv[t].0 == ids@[j]@);
                    }
                }
            }
        }
        i = i + 1;
    }
    r
}

/// Builds the mapping record of one market: canonical type, line value for
/// handicap and totals markets, and the outcome assignment.  Markets of an
/// unknown type yield nothing; the fixture is attached later, once the
/// event resolves.
pub fn build_market_mapping(market: &MonacoMarket) -> (r: Option<MarketMapping>)
    ensures
        r is Some <==> market.market_type.ids@.len() > 0 && market.event.ids@.len() > 0
            && crate::market::spec_known_type(market.market_type.ids@[0]@),
        r matches Some(m) ==> {
            &&& m.event_id@ == market.event.ids@[0]@
            &&& m.market_id@ == market.id@
            &&& m.market_type_id@ == market.market_type.ids@[0]@
            &&& m.fixture_id is None
            &&& outcome_mappings_wf(outcome_mappings_view(m.outcome_mappings@))
            &&& (m.market_type == MarketType::Ah ==> m.line_milli == spec_handicap_line_opt(
                market.name@,
            ))
            &&& (m.market_type == MarketType::Ou ==> m.line_milli == spec_total_line_opt(
                market.market_value,
                market.name@,
            ))
            &&& (m.market_type == MarketType::X12 ==> m.line_milli is None)
        },
{
    if market.market_type.ids.len() == 0 || market.event.ids.len() == 0 {
        return None;
    }
    let market_type_id = market.market_type.ids[0].clone();
    let market_type = match map_market_type(market_type_id.as_str()) {
        Some(mt) => mt,
        None => {
            return None;
        },
    };
    let line_milli: Option<i64> = match market_type {
        MarketType::Ah => get_handicap_value(market),
        MarketType::Ou => get_total_value(market),
        MarketType::X12 => None,
    };
    let outcome_mappings = build_outcome_mappings(&market.market_outcomes.ids);
    Some(
        MarketMapping {
            event_id: market.event.ids[0].clone(),
            market_id: market.id.clone(),
            market_type_id,
            market_type,
            name: market.name.clone(),
            line_milli,
            line_index: None,
            fixture_id: None,
            outcome_mappings,
        },
    )
}

/// The market-type identifier names one of the three canonical types.
pub open spec fn spec_known_type(id: Seq<char>) -> bool {
    id == "FOOTBALL_FULL_TIME_RESULT"@ || id == "FOOTBALL_FULL_TIME_RESULT_HANDICAP"@ || id
        == "FOOTBALL_OVER_UNDER_TOTAL_GOALS"@
}

/// `spec_handicap_line` as an `Option<i64>` value.
pub open spec fn spec_handicap_line_opt(name: Seq<char>) -> Option<i64> {
    match spec_handicap_line(name) {
        Some(v) => if -0x8000_0000_0000_0000 <= v <= 0x7fff_ffff_ffff_ffff {
            Some(v as i64)
        } else {
            None
        },
        None => None,
    }
}

/// `spec_total_line` as an `Option<i64>` value.
pub open spec fn spec_total_line_opt(market_value: Option<String>, name: Seq<char>) -> Option<
    i64,
> {
    match spec_total_line(market_value, name) {
        Some(v) => if -0x8000_0000_0000_0000 <= v <= 0x7fff_ffff_ffff_ffff {
            Some(v as i64)
        } else {
            None
        },
        None => None,
    }
}

} // verus!

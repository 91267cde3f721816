//! The normalized update: one per-bookmaker, per-fixture message carrying
//! only the columns that changed.  Odds are integer-encoded at three
//! decimals; lines and stakes are in thousandths.

use vstd::prelude::*;

use crate::record::{IdsEntry, LatestT, MaxStakesEntry};

verus! {

/// A normalized odds update as sent from the engine to the processor.
#[derive(Debug, Clone)]
pub struct OddsUpdate {
    pub fixture_id: i64,
    pub bookie_id: i64,
    pub bookmaker: String,
    pub timestamp: i64,
    pub start: i64,
    pub decimals: i32,
    pub x12: Option<Vec<i32>>,
    pub ah_lines: Option<Vec<i64>>,
    pub ah_h: Option<Vec<i32>>,
    pub ah_a: Option<Vec<i32>>,
    pub ou_lines: Option<Vec<i64>>,
    pub ou_o: Option<Vec<i32>>,
    pub ou_u: Option<Vec<i32>>,
    pub ids: Option<IdsEntry>,
    pub max_stakes: Option<MaxStakesEntry>,
    pub latest_t: Option<LatestT>,
}

impl Default for OddsUpdate {
    /// The empty update: no columns, canonical three decimals.
    fn default() -> (r: OddsUpdate)
        ensures
            r.fixture_id == 0 && r.bookie_id == 0 && r.bookmaker@ == Seq::<char>::empty(),
            r.timestamp == 0 && r.start == 0 && r.decimals == 3,
            r.x12 is None && r.ah_lines is None && r.ah_h is None && r.ah_a is None,
            r.ou_lines is None && r.ou_o is None && r.ou_u is None,
            r.ids is None && r.max_stakes is None && r.latest_t is None,
    {
        OddsUpdate {
            fixture_id: 0,
            bookie_id: 0,
            bookmaker: String::new(),
            timestamp: 0,
            start: 0,
            decimals: 3,
            x12: None,
            ah_lines: None,
            ah_h: None,
            ah_a: None,
            ou_lines: None,
            ou_o: None,
            ou_u: None,
            ids: None,
            max_stakes: None,
            latest_t: None,
        }
    }
}

} // verus!

//! The Pinnacle polling path: the typed period, the market-open gate, the
//! zeroed period emitted for closed markets, the normalized update built
//! from a period, and the compacted merge into the stored record.
//!
//! Odds arrive integer-encoded at three decimals; lines and stakes are in
//! thousandths.

use vstd::prelude::*;

use crate::record::{
    merge_history, IdsEntry, LatestT, LineIds, LinesEntry, MaxStakeAhOu, MaxStakesEntry, OddsRow,
};

verus! {

/// Three-way prices of a period.
#[derive(Debug, Clone, Copy, PartialEq, Eq, Structural)]
pub struct MoneyLine {
    pub home: i32,
    pub draw: i32,
    pub away: i32,
}

/// One handicap line of a period.
#[derive(Debug, Clone, Copy, PartialEq, Eq, Structural)]
pub struct PinnacleSpread {
    pub hdp: i64,
    pub alt_line_id: i64,
    pub home: i32,
    pub away: i32,
    pub max: i64,
}

/// One totals line of a period.
#[derive(Debug, Clone, Copy, PartialEq, Eq, Structural)]
pub struct PinnacleTotal {
    pub points: i64,
    pub alt_line_id: i64,
    pub over: i32,
    pub under: i32,
    pub max: i64,
}

/// Stake limits and open flags of a period.
#[derive(Debug, Clone, Copy, PartialEq, Eq, Structural)]
pub struct Meta {
    pub max_money_line: Option<i64>,
    pub max_spread: Option<i64>,
    pub max_total: Option<i64>,
    pub open_money_line: bool,
    pub open_spreads: bool,
    pub open_totals: bool,
}

/// The full-match period of one Pinnacle event.
#[derive(Debug, Clone)]
pub struct PinnaclePeriod {
    pub line_id: i64,
    pub number: i32,
    pub cutoff_ms: Option<i64>,
    pub period_status: i32,
    pub money_line: Option<MoneyLine>,
    pub spreads: Vec<PinnacleSpread>,
    pub totals: Vec<PinnacleTotal>,
    pub meta: Option<Meta>,
}

/// The period quotes anything at all.
pub open spec fn spec_has_odds(p: PinnaclePeriod) -> bool {
    p.money_line is Some || p.spreads@.len() > 0 || p.totals@.len() > 0
}

/// The market-open gate: status one, some odds, a cutoff in the future,
/// and at least one column declared open.
pub open spec fn spec_market_open(p: PinnaclePeriod, now_ms: i64) -> bool {
    &&& p.period_status == 1
    &&& spec_has_odds(p)
    &&& (p.cutoff_ms matches Some(c) && c > now_ms)
    &&& (p.meta matches Some(m) && (m.open_money_line || m.open_spreads || m.open_totals))
}

impl PinnaclePeriod {
    /// Whether the market is open for pre-play betting at `now_ms`.
    pub fn is_market_open(&self, now_ms: i64) -> (r: bool)
        ensures
            r == spec_market_open(*self, now_ms),
    {
        let has_odds = self.money_line.is_some() || self.spreads.len() > 0 || self.totals.len()
            > 0;
        let cutoff_future = crate::timeutil::cutoff_in_future(self.cutoff_ms, now_ms);
        let meta_open = match &self.meta {
            Some(m) => m.open_money_line || m.open_spreads || m.open_totals,
            None => false,
        };
        self.period_status == 1 && has_odds && cutoff_future && meta_open
    }

    /// The zeroed copy of a period, emitted when a market with stored odds
    /// is no longer open: every price and stake becomes zero, every open
    /// flag false, lines and identifiers intact.
    pub fn create_zero_period(&self) -> (r: PinnaclePeriod)
        ensures
            r.line_id == self.line_id && r.number == self.number && r.cutoff_ms == self.cutoff_ms
                && r.period_status == self.period_status,
            self.money_line is Some ==> r.money_line == Some(
                MoneyLine { home: 0, draw: 0, away: 0 },
            ),
            self.money_line is None ==> r.money_line is None,
            r.spreads@.len() == self.spreads@.len(),
            forall|i: int|
                0 <= i < r.spreads@.len() ==> #[trigger] r.spreads@[i] == (PinnacleSpread {
                    hdp: self.spreads@[i].hdp,
                    alt_line_id: self.spreads@[i].alt_line_id,
                    home: 0,
                    away: 0,
                    max: 0,
                }),
            r.totals@.len() == self.totals@.len(),
            forall|i: int|
                0 <= i < r.totals@.len() ==> #[trigger] r.totals@[i] == (PinnacleTotal {
                    points: self.totals@[i].points,
                    alt_line_id: self.totals@[i].alt_line_id,
                    over: 0,
                    under: 0,
                    max: 0,
                }),
            self.meta matches Some(m) ==> r.meta == Some(
                Meta {
                    max_money_line: if m.max_money_line is Some {
                        Some(0int as i64)
                    } else {
                        None
                    },
                    max_spread: if m.max_spread is Some {
                        Some(0int as i64)
                    } else {
                        None
                    },
                    max_total: if m.max_total is Some {
                        Some(0int as i64)
                    } else {
                        None
                    },
                    open_money_line: false,
                    open_spreads: false,
                    open_totals: false,
                },
            ),
            self.meta is None ==> r.meta is None,
    {
        let money_line = match &self.money_line {
            Some(_) => Some(MoneyLine { home: 0, draw: 0, away: 0 }),
            None => None,
        };
        let mut spreads: Vec<PinnacleSpread> = Vec::new();
        let n = self.spreads.len();
        let mut i: usize = 0;
        while i < n
            invariant
                0 <= i <= n == self.spreads@.len(),
                spreads@.len() == i,
                forall|k: int|
                    0 <= k < i ==> #[trigger] spreads@[k] == (PinnacleSpread {
                        hdp: self.spreads@[k].hdp,
                        alt_line_id: self.spreads@[k].alt_line_id,
                        home: 0,
                        away: 0,
                        max: 0,
                    }),
            decreases n - i,
        {
            let s = self.spreads[i];
            spreads.push(
                PinnacleSpread { hdp: s.hdp, alt_line_id: s.alt_line_id, home: 0, away: 0, max: 0 },
            );
            i = i + 1;
        }
        let mut totals: Vec<PinnacleTotal> = Vec::new();
        let m = self.totals.len();
        let mut j: usize = 0;
        while j < m
            invariant
                0 <= j <= m == self.totals@.len(),
                totals@.len() == j,
                forall|k: int|
                    0 <= k < j ==> #[trigger] totals@[k] == (PinnacleTotal {
                        points: self.totals@[k].points,
                        alt_line_id: self.totals@[k].alt_line_id,
                        over: 0,
                        under: 0,
                        max: 0,
                    }),
            decreases m - j,
        {
            let t = self.totals[j];
            totals.push(
                PinnacleTotal {
                    points: t.points,
                    alt_line_id: t.alt_line_id,
                    over: 0,
                    under: 0,
                    max: 0,
                },
            );
            j = j + 1;
        }
        let meta = match &self.meta {
            Some(mm) => Some(
                Meta {
                    max_money_line: if mm.max_money_line.is_some() {
                        Some(0)
                    } else {
                        None
                    },
                    max_spread: if mm.max_spread.is_some() {
                        Some(0)
                    } else {
                        None
                    },
                    max_total: if mm.max_total.is_some() {
                        Some(0)
                    } else {
                        None
                    },
                    open_money_line: false,
                    open_spreads: false,
                    open_totals: false,
                },
            ),
            None => None,
        };
        PinnaclePeriod {
            line_id: self.line_id,
            number: self.number,
            cutoff_ms: self.cutoff_ms,
            period_status: self.period_status,
            money_line,
            spreads,
            totals,
            meta,
        }
    }

    /// Builds the normalized update of one period: the three-way prices,
    /// the spread and totals columns aligned with their line vectors, the
    /// per-column stake limits, and the last-write times.
    pub fn create_processor_update(
        &self,
        fixture_id: i64,
        timestamp: i64,
        start: i64,
    ) -> (r: crate::update::OddsUpdate)
        ensures
            r.fixture_id == fixture_id && r.bookie_id == 2 && r.bookmaker@ == "Pinnacle"@,
            r.timestamp == timestamp && r.start == start && r.decimals == 3,
            (match self.money_line {
                Some(ml) => r.x12 matches Some(v) && v@ == seq![ml.home, ml.draw, ml.away],
                None => r.x12 is None,
            }),
            self.spreads@.len() > 0 ==> {
                &&& r.ah_lines matches Some(ls) && ls@.len() == self.spreads@.len() && (forall|
                    i: int,
                |
                    0 <= i < ls@.len() ==> ls@[i] == #[trigger] self.spreads@[i].hdp)
                &&& r.ah_h matches Some(h) && h@.len() == self.spreads@.len() && (forall|i: int|
                    0 <= i < h@.len() ==> h@[i] == #[trigger] self.spreads@[i].home)
                &&& r.ah_a matches Some(a) && a@.len() == self.spreads@.len() && (forall|i: int|
                    0 <= i < a@.len() ==> a@[i] == #[trigger] self.spreads@[i].away)
            },
            self.spreads@.len() == 0 ==> r.ah_lines is None && r.ah_h is None && r.ah_a is None,
            self.totals@.len() > 0 ==> {
                &&& r.ou_lines matches Some(ls) && ls@.len() == self.totals@.len() && (forall|
                    i: int,
                |
                    0 <= i < ls@.len() ==> ls@[i] == #[trigger] self.totals@[i].points)
                &&& r.ou_o matches Some(o) && o@.len() == self.totals@.len() && (forall|i: int|
                    0 <= i < o@.len() ==> o@[i] == #[trigger] self.totals@[i].over)
                &&& r.ou_u matches Some(u) && u@.len() == self.totals@.len() && (forall|i: int|
                    0 <= i < u@.len() ==> u@[i] == #[trigger] self.totals@[i].under)
            },
            self.totals@.len() == 0 ==> r.ou_lines is None && r.ou_o is None && r.ou_u is None,
            (self.spreads@.len() > 0 || self.totals@.len() > 0) <==> r.ids is Some,
            r.ids matches Some(e) ==> {
                &&& e.t == timestamp
                &&& e.line_id matches Some(lid) && lid@ == crate::strutil::spec_render_i64(
                    self.line_id as int,
                )
                &&& e.line_ids.ah@.len() == self.spreads@.len()
                &&& (forall|i: int|
                    0 <= i < self.spreads@.len() ==> e.line_ids.ah@[i]@
                        == crate::strutil::spec_render_i64(
                        (#[trigger] self.spreads@[i]).alt_line_id as int,
                    ))
                &&& e.line_ids.ou@.len() == self.totals@.len()
                &&& (forall|i: int|
                    0 <= i < self.totals@.len() ==> e.line_ids.ou@[i]@
                        == crate::strutil::spec_render_i64(
                        (#[trigger] self.totals@[i]).alt_line_id as int,
                    ))
            },
            r.latest_t matches Some(lt) && lt.ids_ts == (if r.ids is Some {
                Some(timestamp)
            } else {
                None
            }),
    {
        let mut update = crate::update::OddsUpdate {
            fixture_id,
            bookie_id: 2,
            bookmaker: pinnacle_label(),
            timestamp,
            start,
            decimals: 3,
            x12: None,
            ah_lines: None,
            ah_h: None,
            ah_a: None,
            ou_lines: None,
            ou_o: None,
            ou_u: None,
            ids: None,
            max_stakes: None,
            latest_t: None,
        };
        match &self.money_line {
            Some(ml) => {
                let mut v: Vec<i32> = Vec::new();
                v.push(ml.home);
                v.push(ml.draw);
                v.push(ml.away);
                proof {
                    assert(v@ =~= seq![ml.home, ml.draw, ml.away]);
                }
                update.x12 = Some(v);
            },
            None => {},
        }
        if self.spreads.len() > 0 {
            let mut lines: Vec<i64> = Vec::new();
            let mut hv: Vec<i32> = Vec::new();
            let mut av: Vec<i32> = Vec::new();
            let mut ids: Vec<String> = Vec::new();
            let n = self.spreads.len();
            let mut i: usize = 0;
            while i < n
                invariant
                    0 <= i <= n == self.spreads@.len(),
                    lines@.len() == i && hv@.len() == i && av@.len() == i,
                    forall|k: int| 0 <= k < i ==> lines@[k] == #[trigger] self.spreads@[k].hdp,
                    forall|k: int| 0 <= k < i ==> hv@[k] == #[trigger] self.spreads@[k].home,
                    forall|k: int| 0 <= k < i ==> av@[k] == #[trigger] self.spreads@[k].away,
                decreases n - i,
            {
                let s = self.spreads[i];
                lines.push(s.hdp);
                hv.push(s.home);
                av.push(s.away);
                i = i + 1;
            }
            update.ah_lines = Some(lines);
            update.ah_h = Some(hv);
            update.ah_a = Some(av);
        }
        if self.totals.len() > 0 {
            let mut lines: Vec<i64> = Vec::new();
            let mut ov: Vec<i32> = Vec::new();
            let mut uv: Vec<i32> = Vec::new();
            let n = self.totals.len();
            let mut i: usize = 0;
            while i < n
                invariant
                    0 <= i <= n == self.totals@.len(),
                    lines@.len() == i && ov@.len() == i && uv@.len() == i,
                    forall|k: int| 0 <= k < i ==> lines@[k] == #[trigger] self.totals@[k].points,
                    forall|k: int| 0 <= k < i ==> ov@[k] == #[trigger] self.totals@[k].over,
                    forall|k: int| 0 <= k < i ==> uv@[k] == #[trigger] self.totals@[k].under,
                decreases n - i,
            {
                let t = self.totals[i];
                lines.push(t.points);
                ov.push(t.over);
                uv.push(t.under);
                i = i + 1;
            }
            update.ou_lines = Some(lines);
            update.ou_o = Some(ov);
            update.ou_u = Some(uv);
        }
        // stake limits per column
        match &self.meta {
            Some(m) => {
                let mut entry = MaxStakesEntry {
                    t: timestamp,
                    max_stake_x12: None,
                    max_stake_ah: None,
                    max_stake_ou: None,
                };
                match m.max_money_line {
                    Some(mx) => {
                        if update.x12.is_some() {
                            let mut st: Vec<i64> = Vec::new();
                            st.push(mx);
                            st.push(mx);
                            st.push(mx);
                            entry.max_stake_x12 = Some(st);
                        }
                    },
                    None => {},
                }
                match m.max_spread {
                    Some(mx) => {
                        if self.spreads.len() > 0 {
                            let hs = repeat_stake(mx, self.spreads.len());
                            let as_ = repeat_stake(mx, self.spreads.len());
                            entry.max_stake_ah = Some(MaxStakeAhOu { h: hs, a: as_ });
                        }
                    },
                    None => {},
                }
                match m.max_total {
                    Some(mx) => {
                        if self.totals.len() > 0 {
                            let os = repeat_stake(mx, self.totals.len());
                            let us = repeat_stake(mx, self.totals.len());
                            entry.max_stake_ou = Some(MaxStakeAhOu { h: os, a: us });
                        }
                    },
                    None => {},
                }
                if entry.max_stake_x12.is_some() || entry.max_stake_ah.is_some()
                    || entry.max_stake_ou.is_some() {
                    update.max_stakes = Some(entry);
                }
            },
            None => {},
        }
        update.ids = build_ids_entry(self, timestamp);
        update.latest_t = Some(
            LatestT {
                x12_ts: if update.x12.is_some() {
                    Some(timestamp)
                } else {
                    None
                },
                ah_ts: if update.ah_lines.is_some() {
                    Some(timestamp)
                } else {
                    None
                },
                ou_ts: if update.ou_lines.is_some() {
                    Some(timestamp)
                } else {
                    None
                },
                lines_ts: if update.ah_lines.is_some() || update.ou_lines.is_some() {
                    Some(timestamp)
                } else {
                    None
                },
                ids_ts: if update.ids.is_some() {
                    Some(timestamp)
                } else {
                    None
                },
                stakes_ts: if update.max_stakes.is_some() {
                    Some(timestamp)
                } else {
                    None
                },
            },
        );
        update
    }
}

/// A stake value repeated once per line.
fn repeat_stake(v: i64, n: usize) -> (r: Vec<i64>)
    ensures
        r@.len() == n,
        forall|k: int| 0 <= k < n ==> r@[k] == v,
{
    let mut r: Vec<i64> = Vec::new();
    let mut i: usize = 0;
    while i < n
        invariant
            0 <= i <= n,
            r@.len() == i,
            forall|k: int| 0 <= k < i ==> r@[k] == v,
        decreases n - i,
    {
        r.push(v);
        i = i + 1;
    }
    r
}

/// The Pinnacle bookmaker label.
fn pinnacle_label() -> (r: String)
    ensures
        r@ == "Pinnacle"@,
{
    "Pinnacle".to_owned()
}

/// The stored Pinnacle record of one fixture, column by column.
#[derive(Debug, Clone)]
pub struct PinnacleRecord {
    pub odds_x12: Vec<OddsRow>,
    pub odds_ah: Vec<OddsRow>,
    pub odds_ou: Vec<OddsRow>,
    pub lines: Vec<LinesEntry>,
    pub ids: Vec<IdsEntry>,
    pub max_stakes: Vec<MaxStakesEntry>,
    pub latest_t: LatestT,
}

impl PinnacleRecord {
    /// An empty record.
    pub fn new() -> (r: PinnacleRecord)
        ensures
            r.odds_x12@.len() == 0 && r.odds_ah@.len() == 0 && r.odds_ou@.len() == 0,
            r.lines@.len() == 0 && r.ids@.len() == 0 && r.max_stakes@.len() == 0,
    {
        PinnacleRecord {
            odds_x12: Vec::new(),
            odds_ah: Vec::new(),
            odds_ou: Vec::new(),
            lines: Vec::new(),
            ids: Vec::new(),
            max_stakes: Vec::new(),
            latest_t: LatestT {
                x12_ts: None,
                ah_ts: None,
                ou_ts: None,
                lines_ts: None,
                ids_ts: None,
                stakes_ts: None,
            },
        }
    }

    /// Merges one period into the record: each odds column gains a new row
    /// unless its payload repeats the latest one; the line, identifier and
    /// stake columns are compacted the same way; `latest_t` advances for
    /// every column the period carries.  Returns whether anything grew,
    /// which is when the row is persisted.
    pub fn apply_period(&mut self, period: &PinnaclePeriod, timestamp: i64) -> (changed: bool)
        ensures
            period.money_line is None ==> final(self).odds_x12@ == old(self).odds_x12@,
            period.spreads@.len() == 0 ==> final(self).odds_ah@ == old(self).odds_ah@,
            period.totals@.len() == 0 ==> final(self).odds_ou@ == old(self).odds_ou@,
            // the latest row of each delivered column carries the period's
            // payload (appended at `timestamp`, or payload-equal already)
            period.money_line matches Some(ml) ==> {
                let rows = final(self).odds_x12@;
                &&& rows.len() > 0
                &&& rows.last().x12 matches Some(v) && v@ == seq![ml.home, ml.draw, ml.away]
                &&& (rows.len() > old(self).odds_x12@.len() ==> rows.last().t == timestamp)
            },
            period.spreads@.len() > 0 ==> {
                let rows = final(self).odds_ah@;
                &&& rows.len() > 0
                &&& rows.last().ah_h matches Some(h) && h@.len() == period.spreads@.len() && (
                forall|i: int|
                    0 <= i < h@.len() ==> h@[i] == (#[trigger] period.spreads@[i]).home)
                &&& rows.last().ah_a matches Some(a) && a@.len() == period.spreads@.len() && (
                forall|i: int|
                    0 <= i < a@.len() ==> a@[i] == (#[trigger] period.spreads@[i]).away)
                &&& (rows.len() > old(self).odds_ah@.len() ==> rows.last().t == timestamp)
            },
            period.totals@.len() > 0 ==> {
                let rows = final(self).odds_ou@;
                &&& rows.len() > 0
                &&& rows.last().ou_o matches Some(o) && o@.len() == period.totals@.len() && (
                forall|i: int|
                    0 <= i < o@.len() ==> o@[i] == (#[trigger] period.totals@[i]).over)
                &&& rows.last().ou_u matches Some(u) && u@.len() == period.totals@.len() && (
                forall|i: int|
                    0 <= i < u@.len() ==> u@[i] == (#[trigger] period.totals@[i]).under)
                &&& (rows.len() > old(self).odds_ou@.len() ==> rows.last().t == timestamp)
            },
            // the line column's latest entry holds the period's line sets
            (period.spreads@.len() > 0 || period.totals@.len() > 0) ==> {
                let ls = final(self).lines@;
                &&& ls.len() > 0
                &&& (period.spreads@.len() > 0 ==> (ls.last().ah matches Some(v) && v@.len()
                    == period.spreads@.len() && (forall|i: int|
                    0 <= i < v@.len() ==> v@[i] == (#[trigger] period.spreads@[i]).hdp)))
                &&& (period.spreads@.len() == 0 ==> ls.last().ah is None)
                &&& (period.totals@.len() > 0 ==> (ls.last().ou matches Some(v) && v@.len()
                    == period.totals@.len() && (forall|i: int|
                    0 <= i < v@.len() ==> v@[i] == (#[trigger] period.totals@[i]).points)))
                &&& (period.totals@.len() == 0 ==> ls.last().ou is None)
            },
            (period.spreads@.len() == 0 && period.totals@.len() == 0) ==> final(self).lines@
                == old(self).lines@,
            // the identifier column is rewritten with the period's ids
            (period.spreads@.len() > 0 || period.totals@.len() > 0) ==> {
                let ids = final(self).ids@;
                &&& ids.len() == 1
                &&& ids[0].t == timestamp
                &&& ids[0].line_id matches Some(lid) && lid@ == crate::strutil::spec_render_i64(
                    period.line_id as int,
                )
                &&& ids[0].line_ids.ah@.len() == period.spreads@.len()
                &&& (forall|i: int|
                    0 <= i < period.spreads@.len() ==> ids[0].line_ids.ah@[i]@
                        == crate::strutil::spec_render_i64(
                        (#[trigger] period.spreads@[i]).alt_line_id as int,
                    ))
                &&& ids[0].line_ids.ou@.len() == period.totals@.len()
                &&& (forall|i: int|
                    0 <= i < period.totals@.len() ==> ids[0].line_ids.ou@[i]@
                        == crate::strutil::spec_render_i64(
                        (#[trigger] period.totals@[i]).alt_line_id as int,
                    ))
            },
            (period.spreads@.len() == 0 && period.totals@.len() == 0) ==> final(self).ids@ == old(
                self,
            ).ids@,
            // the stake column's latest entry holds the period's limits
            period.meta matches Some(m) ==> {
                let st = final(self).max_stakes@;
                &&& st.len() > 0
                &&& (match m.max_money_line {
                    Some(mx) => st.last().max_stake_x12 matches Some(v) && v@ == seq![mx],
                    None => st.last().max_stake_x12 is None,
                })
                &&& (match m.max_spread {
                    Some(mx) => st.last().max_stake_ah matches Some(e) && e.h@ == seq![mx]
                        && e.a@ == seq![mx],
                    None => st.last().max_stake_ah is None,
                })
                &&& (match m.max_total {
                    Some(mx) => st.last().max_stake_ou matches Some(e) && e.h@ == seq![mx]
                        && e.a@ == seq![mx],
                    None => st.last().max_stake_ou is None,
                })
            },
            period.meta is None ==> final(self).max_stakes@ == old(self).max_stakes@,
            old(self).odds_x12@.len() <= final(self).odds_x12@.len(),
            final(self).odds_x12@.len() <= old(self).odds_x12@.len() + 1,
            old(self).odds_ah@.len() <= final(self).odds_ah@.len(),
            final(self).odds_ah@.len() <= old(self).odds_ah@.len() + 1,
            old(self).odds_ou@.len() <= final(self).odds_ou@.len(),
            final(self).odds_ou@.len() <= old(self).odds_ou@.len() + 1,
            changed == (final(self).odds_x12@.len() > old(self).odds_x12@.len()
                || final(self).odds_ah@.len() > old(self).odds_ah@.len()
                || final(self).odds_ou@.len() > old(self).odds_ou@.len()
                || final(self).lines@.len() > old(self).lines@.len()
                || final(self).max_stakes@.len() > old(self).max_stakes@.len()),
    {
        let mut changed = false;
        // three-way column
        match build_x12_row(period, timestamp) {
            Some(row) => {
                let grew = merge_history(&mut self.odds_x12, Some(row));
                if grew {
                    changed = true;
                    self.latest_t.x12_ts = Some(timestamp);
                }
            },
            None => {},
        }
        // handicap column
        match build_ah_row(period, timestamp) {
            Some(row) => {
                let grew = merge_history(&mut self.odds_ah, Some(row));
                if grew {
                    changed = true;
                    self.latest_t.ah_ts = Some(timestamp);
                }
            },
            None => {},
        }
        // totals column
        match build_ou_row(period, timestamp) {
            Some(row) => {
                let grew = merge_history(&mut self.odds_ou, Some(row));
                if grew {
                    changed = true;
                    self.latest_t.ou_ts = Some(timestamp);
                }
            },
            None => {},
        }
        // line column
        if period.spreads.len() > 0 || period.totals.len() > 0 {
            let entry = build_lines_entry(period, timestamp);
            let grew = merge_lines_history(&mut self.lines, entry);
            if grew {
                changed = true;
                self.latest_t.lines_ts = Some(timestamp);
            }
        }
        // identifier column: rewritten with every period
        let ids_entry = build_ids_entry(period, timestamp);
        match ids_entry {
            Some(e) => {
                self.ids.clear();
                self.ids.push(e);
                self.latest_t.ids_ts = Some(timestamp);
            },
            None => {},
        }
        // stake column
        match build_stakes_entry(period, timestamp) {
            Some(e) => {
                let grew = merge_stakes_history(&mut self.max_stakes, e);
                if grew {
                    changed = true;
                    self.latest_t.stakes_ts = Some(timestamp);
                }
            },
            None => {},
        }
        changed
    }
}

/// Builds the three-way row.
fn build_x12_row(p: &PinnaclePeriod, t: i64) -> (r: Option<OddsRow>)
    ensures
        r is Some <==> p.money_line is Some,
        r matches Some(row) ==> row.t == t && (row.x12 matches Some(v) && v@ == seq![
            p.money_line.unwrap().home,
            p.money_line.unwrap().draw,
            p.money_line.unwrap().away,
        ]) && row.ah_h is None && row.ah_a is None && row.ou_o is None && row.ou_u is None,
{
    match &p.money_line {
        Some(ml) => {
            let mut v: Vec<i32> = Vec::new();
            v.push(ml.home);
            v.push(ml.draw);
            v.push(ml.away);
            proof {
                assert(v@ =~= seq![ml.home, ml.draw, ml.away]);
            }
            Some(OddsRow { t, x12: Some(v), ah_h: None, ah_a: None, ou_o: None, ou_u: None })
        },
        None => None,
    }
}

/// Builds the handicap row, sides aligned with the spread list.
fn build_ah_row(p: &PinnaclePeriod, t: i64) -> (r: Option<OddsRow>)
    ensures
        r is Some <==> p.spreads@.len() > 0,
        r matches Some(row) ==> row.t == t && (row.ah_h matches Some(h) && h@.len()
            == p.spreads@.len() && (forall|i: int|
            0 <= i < h@.len() ==> h@[i] == #[trigger] p.spreads@[i].home)) && (
        row.ah_a matches Some(a) && a@.len() == p.spreads@.len() && (forall|i: int|
            0 <= i < a@.len() ==> a@[i] == #[trigger] p.spreads@[i].away)) && row.x12 is None
            && row.ou_o is None && row.ou_u is None,
{
    if p.spreads.len() == 0 {
        return None;
    }
    let mut hv: Vec<i32> = Vec::new();
    let mut av: Vec<i32> = Vec::new();
    let n = p.spreads.len();
    let mut i: usize = 0;
    while i < n
        invariant
            0 <= i <= n == p.spreads@.len(),
            hv@.len() == i && av@.len() == i,
            forall|k: int| 0 <= k < i ==> hv@[k] == #[trigger] p.spreads@[k].home,
            forall|k: int| 0 <= k < i ==> av@[k] == #[trigger] p.spreads@[k].away,
        decreases n - i,
    {
        let s = p.spreads[i];
        hv.push(s.home);
        av.push(s.away);
        i = i + 1;
    }
    Some(OddsRow { t, x12: None, ah_h: Some(hv), ah_a: Some(av), ou_o: None, ou_u: None })
}

/// Builds the totals row, sides aligned with the totals list.
fn build_ou_row(p: &PinnaclePeriod, t: i64) -> (r: Option<OddsRow>)
    ensures
        r is Some <==> p.totals@.len() > 0,
        r matches Some(row) ==> row.t == t && (row.ou_o matches Some(o) && o@.len()
            == p.totals@.len() && (forall|i: int|
            0 <= i < o@.len() ==> o@[i] == #[trigger] p.totals@[i].over)) && (
        row.ou_u matches Some(u) && u@.len() == p.totals@.len() && (forall|i: int|
            0 <= i < u@.len() ==> u@[i] == #[trigger] p.totals@[i].under)) && row.x12 is None
            && row.ah_h is None && row.ah_a is None,
{
    if p.totals.len() == 0 {
        return None;
    }
    let mut ov: Vec<i32> = Vec::new();
    let mut uv: Vec<i32> = Vec::new();
    let n = p.totals.len();
    let mut i: usize = 0;
    while i < n
        invariant
            0 <= i <= n == p.totals@.len(),
            ov@.len() == i && uv@.len() == i,
            forall|k: int| 0 <= k < i ==> ov@[k] == #[trigger] p.totals@[k].over,
            forall|k: int| 0 <= k < i ==> uv@[k] == #[trigger] p.totals@[k].under,
        decreases n - i,
    {
        let tt = p.totals[i];
        ov.push(tt.over);
        uv.push(tt.under);
        i = i + 1;
    }
    Some(OddsRow { t, x12: None, ah_h: None, ah_a: None, ou_o: Some(ov), ou_u: Some(uv) })
}

/// Builds the line entry: the handicap and totals line vectors active from
/// `t` on.
fn build_lines_entry(p: &PinnaclePeriod, t: i64) -> (r: LinesEntry)
    ensures
        r.t == t,
        p.spreads@.len() > 0 ==> (r.ah matches Some(v) && v@.len() == p.spreads@.len() && (forall|
            i: int,
        |
            0 <= i < v@.len() ==> v@[i] == #[trigger] p.spreads@[i].hdp)),
        p.spreads@.len() == 0 ==> r.ah is None,
        p.totals@.len() > 0 ==> (r.ou matches Some(v) && v@.len() == p.totals@.len() && (forall|
            i: int,
        |
            0 <= i < v@.len() ==> v@[i] == #[trigger] p.totals@[i].points)),
        p.totals@.len() == 0 ==> r.ou is None,
{
    let ah = if p.spreads.len() > 0 {
        let mut v: Vec<i64> = Vec::new();
        let n = p.spreads.len();
        let mut i: usize = 0;
        while i < n
            invariant
                0 <= i <= n == p.spreads@.len(),
                v@.len() == i,
                forall|k: int| 0 <= k < i ==> v@[k] == #[trigger] p.spreads@[k].hdp,
            decreases n - i,
        {
            v.push(p.spreads[i].hdp);
            i = i + 1;
        }
        Some(v)
    } else {
        None
    };
    let ou = if p.totals.len() > 0 {
        let mut v: Vec<i64> = Vec::new();
        let n = p.totals.len();
        let mut i: usize = 0;
        while i < n
            invariant
                0 <= i <= n == p.totals@.len(),
                v@.len() == i,
                forall|k: int| 0 <= k < i ==> v@[k] == #[trigger] p.totals@[k].points,
            decreases n - i,
        {
            v.push(p.totals[i].points);
            i = i + 1;
        }
        Some(v)
    } else {
        None
    };
    LinesEntry { t, ah, ou }
}

/// Builds the identifier entry: the period's line id and the alternate
/// line identifiers per market type, carried as decimal strings.
fn build_ids_entry(p: &PinnaclePeriod, t: i64) -> (r: Option<IdsEntry>)
    ensures
        r is Some <==> p.spreads@.len() > 0 || p.totals@.len() > 0,
        r matches Some(e) ==> {
            &&& e.t == t
            &&& e.line_id matches Some(lid) && lid@ == crate::strutil::spec_render_i64(
                p.line_id as int,
            )
            &&& e.line_ids.x12@.len() == 0
            &&& e.line_ids.ah@.len() == p.spreads@.len()
            &&& (forall|i: int|
                0 <= i < p.spreads@.len() ==> e.line_ids.ah@[i]@
                    == crate::strutil::spec_render_i64(
                    (#[trigger] p.spreads@[i]).alt_line_id as int,
                ))
            &&& e.line_ids.ou@.len() == p.totals@.len()
            &&& (forall|i: int|
                0 <= i < p.totals@.len() ==> e.line_ids.ou@[i]@
                    == crate::strutil::spec_render_i64(
                    (#[trigger] p.totals@[i]).alt_line_id as int,
                ))
        },
{
    if p.spreads.len() == 0 && p.totals.len() == 0 {
        return None;
    }
    let mut ah: Vec<String> = Vec::new();
    let n = p.spreads.len();
    let mut i: usize = 0;
    while i < n
        invariant
            0 <= i <= n == p.spreads@.len(),
            ah@.len() == i,
            forall|k: int|
                0 <= k < i ==> ah@[k]@ == crate::strutil::spec_render_i64(
                    (#[trigger] p.spreads@[k]).alt_line_id as int,
                ),
        decreases n - i,
    {
        ah.push(crate::strutil::render_i64(p.spreads[i].alt_line_id));
        i = i + 1;
    }
    let mut ou: Vec<String> = Vec::new();
    let m = p.totals.len();
    let mut j: usize = 0;
    while j < m
        invariant
            0 <= j <= m == p.totals@.len(),
            ou@.len() == j,
            forall|k: int|
                0 <= k < j ==> ou@[k]@ == crate::strutil::spec_render_i64(
                    (#[trigger] p.totals@[k]).alt_line_id as int,
                ),
        decreases m - j,
    {
        ou.push(crate::strutil::render_i64(p.totals[j].alt_line_id));
        j = j + 1;
    }
    Some(
        IdsEntry {
            t,
            line_id: Some(crate::strutil::render_i64(p.line_id)),
            line_ids: LineIds { x12: Vec::new(), ah, ou },
        },
    )
}

/// Builds the stake entry of the record, when the period carries limits.
fn build_stakes_entry(p: &PinnaclePeriod, t: i64) -> (r: Option<MaxStakesEntry>)
    ensures
        r is Some <==> p.meta is Some,
        r matches Some(e) ==> p.meta matches Some(m) && e.t == t && (match m.max_money_line {
            Some(mx) => e.max_stake_x12 matches Some(v) && v@ == seq![mx],
            None => e.max_stake_x12 is None,
        }) && (match m.max_spread {
            Some(mx) => e.max_stake_ah matches Some(st) && st.h@ == seq![mx] && st.a@ == seq![
                mx,
            ],
            None => e.max_stake_ah is None,
        }) && (match m.max_total {
            Some(mx) => e.max_stake_ou matches Some(st) && st.h@ == seq![mx] && st.a@ == seq![
                mx,
            ],
            None => e.max_stake_ou is None,
        }),
{
    match &p.meta {
        Some(m) => {
            let max_stake_x12 = match m.max_money_line {
                Some(mx) => {
                    let mut v: Vec<i64> = Vec::new();
                    v.push(mx);
                    Some(v)
                },
                None => None,
            };
            let max_stake_ah = match m.max_spread {
                Some(mx) => {
                    let mut h: Vec<i64> = Vec::new();
                    h.push(mx);
                    let mut a: Vec<i64> = Vec::new();
                    a.push(mx);
                    Some(MaxStakeAhOu { h, a })
                },
                None => None,
            };
            let max_stake_ou = match m.max_total {
                Some(mx) => {
                    let mut h: Vec<i64> = Vec::new();
                    h.push(mx);
                    let mut a: Vec<i64> = Vec::new();
                    a.push(mx);
                    Some(MaxStakeAhOu { h, a })
                },
                None => None,
            };
            Some(MaxStakesEntry { t, max_stake_x12, max_stake_ah, max_stake_ou })
        },
        None => None,
    }
}

/// Compaction of the line column, payloads compared ignoring `t`.
fn merge_lines_history(rows: &mut Vec<LinesEntry>, new: LinesEntry) -> (grew: bool)
    ensures
        grew == (final(rows)@.len() > old(rows)@.len()),
        grew ==> final(rows)@ == old(rows)@.push(new),
        !grew ==> final(rows)@ == old(rows)@ && old(rows)@.len() > 0 && spec_lines_payload_eq(
            old(rows)@.last(),
            new,
        ),
        final(rows)@.len() > 0,
{
    if rows.len() == 0 {
        rows.push(new);
        return true;
    }
    let last = rows.len() - 1;
    let same = lines_same_payload(&rows[last], &new);
    if same {
        false
    } else {
        rows.push(new);
        true
    }
}

/// Payload equality of two line entries, ignoring `t`.
pub open spec fn spec_lines_payload_eq(a: LinesEntry, b: LinesEntry) -> bool {
    &&& (match (a.ah, b.ah) {
        (Some(x), Some(y)) => x@ == y@,
        (None, None) => true,
        _ => false,
    })
    &&& (match (a.ou, b.ou) {
        (Some(x), Some(y)) => x@ == y@,
        (None, None) => true,
        _ => false,
    })
}

/// Payload equality of two line entries, ignoring `t`.
fn lines_same_payload(a: &LinesEntry, b: &LinesEntry) -> (r: bool)
    ensures
        r == spec_lines_payload_eq(*a, *b),
{
    opt_vec_i64_eq(&a.ah, &b.ah) && opt_vec_i64_eq(&a.ou, &b.ou)
}

/// Equality of optional `i64` vectors through views.
fn opt_vec_i64_eq(a: &Option<Vec<i64>>, b: &Option<Vec<i64>>) -> (r: bool)
    ensures
        r == (match (*a, *b) {
            (Some(x), Some(y)) => x@ == y@,
            (None, None) => true,
            _ => false,
        }),
{
    match (a, b) {
        (Some(x), Some(y)) => vec_i64_eq(x, y),
        (None, None) => true,
        _ => false,
    }
}

/// Equality of `i64` vectors through views.
fn vec_i64_eq(a: &Vec<i64>, b: &Vec<i64>) -> (r: bool)
    ensures
        r == (a@ == b@),
{
    if a.len() != b.len() {
        proof {
            if a@ == b@ {
                assert(a@.len() == b@.len());
            }
        }
        return false;
    }
    let n = a.len();
    let mut i: usize = 0;
    while i < n
        invariant
            0 <= i <= n == a@.len() == b@.len(),
            forall|k: int| 0 <= k < i ==> a@[k] == b@[k],
        decreases n - i,
    {
        if a[i] != b[i] {
            return false;
        }
        i = i + 1;
    }
    proof {
        assert(a@ =~= b@);
    }
    true
}

/// Compaction of the stake column, payloads compared ignoring `t`.
fn merge_stakes_history(rows: &mut Vec<MaxStakesEntry>, new: MaxStakesEntry) -> (grew: bool)
    ensures
        grew == (final(rows)@.len() > old(rows)@.len()),
        grew ==> final(rows)@ == old(rows)@.push(new),
        !grew ==> final(rows)@ == old(rows)@ && old(rows)@.len() > 0 && spec_stakes_payload_eq(
            old(rows)@.last(),
            new,
        ),
        final(rows)@.len() > 0,
{
    if rows.len() == 0 {
        rows.push(new);
        return true;
    }
    let last = rows.len() - 1;
    let same = stakes_same_payload(&rows[last], &new);
    if same {
        false
    } else {
        rows.push(new);
        true
    }
}

/// Payload equality of two stake entries, ignoring `t`.
pub open spec fn spec_stakes_payload_eq(a: MaxStakesEntry, b: MaxStakesEntry) -> bool {
    &&& (match (a.max_stake_x12, b.max_stake_x12) {
        (Some(x), Some(y)) => x@ == y@,
        (None, None) => true,
        _ => false,
    })
    &&& (match (a.max_stake_ah, b.max_stake_ah) {
        (Some(x), Some(y)) => x.h@ == y.h@ && x.a@ == y.a@,
        (None, None) => true,
        _ => false,
    })
    &&& (match (a.max_stake_ou, b.max_stake_ou) {
        (Some(x), Some(y)) => x.h@ == y.h@ && x.a@ == y.a@,
        (None, None) => true,
        _ => false,
    })
}

/// Payload equality of two stake entries, ignoring `t`.
fn stakes_same_payload(a: &MaxStakesEntry, b: &MaxStakesEntry) -> (r: bool)
    ensures
        r == spec_stakes_payload_eq(*a, *b),
{
    let x12 = opt_vec_i64_eq(&a.max_stake_x12, &b.max_stake_x12);
    let ah = match (&a.max_stake_ah, &b.max_stake_ah) {
        (Some(x), Some(y)) => vec_i64_eq(&x.h, &y.h) && vec_i64_eq(&x.a, &y.a),
        (None, None) => true,
        _ => false,
    };
    let ou = match (&a.max_stake_ou, &b.max_stake_ou) {
        (Some(x), Some(y)) => vec_i64_eq(&x.h, &y.h) && vec_i64_eq(&x.a, &y.a),
        (None, None) => true,
        _ => false,
    };
    x12 && ah && ou
}

} // verus!

use odds_pipeline::pinnacle::{
    Meta, MoneyLine, PinnaclePeriod, PinnacleRecord, PinnacleSpread, PinnacleTotal,
};
use odds_pipeline::strutil::{parse_milli, render_i64};
use odds_pipeline::timeutil::{cutoff_in_future, parse_cutoff, parse_rfc3339_millis, start_timestamp};

fn period() -> PinnaclePeriod {
    PinnaclePeriod {
        line_id: 77,
        number: 0,
        cutoff_ms: Some(10_000),
        period_status: 1,
        money_line: Some(MoneyLine { home: 1900, draw: 3600, away: 4100 }),
        spreads: vec![PinnacleSpread {
            hdp: -500,
            alt_line_id: 5,
            home: 2100,
            away: 1800,
            max: 500_000,
        }],
        totals: vec![PinnacleTotal {
            points: 2500,
            alt_line_id: 6,
            over: 1950,
            under: 1950,
            max: 250_000,
        }],
        meta: Some(Meta {
            max_money_line: Some(1_000_000),
            max_spread: Some(500_000),
            max_total: Some(250_000),
            open_money_line: true,
            open_spreads: true,
            open_totals: true,
        }),
    }
}

#[test]
fn market_open_gate() {
    let p = period();
    assert!(p.is_market_open(5_000));
    assert!(!p.is_market_open(10_000));
    let mut closed = period();
    closed.period_status = 2;
    assert!(!closed.is_market_open(5_000));
    let mut no_meta = period();
    no_meta.meta = None;
    assert!(!no_meta.is_market_open(5_000));
}

#[test]
fn zero_period_keeps_lines_and_zeros_prices() {
    let z = period().create_zero_period();
    assert_eq!(z.money_line, Some(MoneyLine { home: 0, draw: 0, away: 0 }));
    assert_eq!(z.spreads[0].hdp, -500);
    assert_eq!(z.spreads[0].home, 0);
    assert_eq!(z.totals[0].points, 2500);
    assert_eq!(z.totals[0].over, 0);
    assert_eq!(z.meta.unwrap().open_money_line, false);
}

#[test]
fn processor_update_carries_all_columns() {
    let u = period().create_processor_update(3, 1_000, 900);
    assert_eq!(u.bookmaker, "Pinnacle");
    assert_eq!(u.bookie_id, 2);
    assert_eq!(u.x12, Some(vec![1900, 3600, 4100]));
    assert_eq!(u.ah_lines, Some(vec![-500]));
    assert_eq!(u.ah_h, Some(vec![2100]));
    assert_eq!(u.ou_lines, Some(vec![2500]));
    assert_eq!(u.ou_u, Some(vec![1950]));
    let stakes = u.max_stakes.expect("stakes");
    assert_eq!(stakes.max_stake_x12, Some(vec![1_000_000, 1_000_000, 1_000_000]));
    let latest = u.latest_t.expect("latest");
    assert_eq!(latest.x12_ts, Some(1_000));
    assert_eq!(latest.lines_ts, Some(1_000));
}

#[test]
fn record_compacts_repeated_periods() {
    let mut rec = PinnacleRecord::new();
    let changed1 = rec.apply_period(&period(), 100);
    assert!(changed1);
    assert_eq!(rec.odds_x12.len(), 1);
    // the very same prices again: nothing grows, nothing is persisted
    let changed2 = rec.apply_period(&period(), 200);
    assert!(!changed2);
    assert_eq!(rec.odds_x12.len(), 1);
    assert_eq!(rec.odds_ah.len(), 1);
    // a price moves: the odds column grows
    let mut p2 = period();
    p2.money_line = Some(MoneyLine { home: 1950, draw: 3600, away: 4100 });
    let changed3 = rec.apply_period(&p2, 300);
    assert!(changed3);
    assert_eq!(rec.odds_x12.len(), 2);
    assert_eq!(rec.latest_t.x12_ts, Some(300));
}

#[test]
fn line_strings_parse_to_thousandths() {
    assert_eq!(parse_milli("-0.5"), Some(-500));
    assert_eq!(parse_milli("+1.25"), Some(1250));
    assert_eq!(parse_milli("2"), Some(2000));
    assert_eq!(parse_milli("2.75"), Some(2750));
    assert_eq!(parse_milli("0.125"), Some(125));
    assert_eq!(parse_milli(""), None);
    assert_eq!(parse_milli("abc"), None);
    assert_eq!(parse_milli("1.2345"), None);
}

#[test]
fn rfc3339_parsing_through_chrono() {
    let ms = parse_rfc3339_millis("1970-01-01T00:00:01Z").expect("epoch second one");
    assert_eq!(ms, 1_000);
    assert!(parse_rfc3339_millis("not a timestamp").is_none());
    let naive = odds_pipeline::timeutil::parse_naive_datetime_millis("1970-01-01T00:01:00")
        .expect("minute one");
    assert_eq!(naive, 60_000);
}

#[test]
fn start_timestamp_fallback_chain() {
    let valid = "1970-01-01T00:00:02Z".to_string();
    assert_eq!(start_timestamp(Some(&valid), Some(5), 9), 2_000);
    let bad = "garbage".to_string();
    assert_eq!(start_timestamp(Some(&bad), Some(5), 9), 5);
    assert_eq!(start_timestamp(None, Some(5), 9), 5);
    assert_eq!(start_timestamp(None, None, 9), 9);
}

#[test]
fn cutoff_parse_and_gate() {
    let ms = parse_cutoff("1970-01-02T00:00:00").expect("day two");
    assert_eq!(ms, 86_400_000);
    assert!(cutoff_in_future(Some(ms), ms - 1));
    assert!(!cutoff_in_future(Some(ms), ms));
    assert!(!cutoff_in_future(None, 0));
}

#[test]
fn ids_column_carries_rendered_identifiers() {
    let u = period().create_processor_update(3, 1_000, 900);
    let ids = u.ids.expect("ids");
    assert_eq!(ids.line_id.as_deref(), Some("77"));
    assert_eq!(ids.line_ids.ah, vec!["5"]);
    assert_eq!(ids.line_ids.ou, vec!["6"]);
    let latest = u.latest_t.expect("latest");
    assert_eq!(latest.ids_ts, Some(1_000));
    // the stored record rewrites its identifier column the same way
    let mut rec = PinnacleRecord::new();
    rec.apply_period(&period(), 100);
    assert_eq!(rec.ids.len(), 1);
    assert_eq!(rec.ids[0].line_id.as_deref(), Some("77"));
    assert_eq!(rec.ids[0].line_ids.ah, vec!["5"]);
    assert_eq!(rec.latest_t.ids_ts, Some(100));
}

#[test]
fn decimal_rendering_round_trips() {
    assert_eq!(render_i64(0), "0");
    assert_eq!(render_i64(7), "7");
    assert_eq!(render_i64(-35), "-35");
    assert_eq!(render_i64(120043), "120043");
}

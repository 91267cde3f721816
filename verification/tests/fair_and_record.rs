use odds_pipeline::fair::calculate_fair_odds;
use odds_pipeline::record::{merge_history, merge_odds_entry, OddsRow};

fn row(t: i64, x12: Option<Vec<i32>>) -> OddsRow {
    OddsRow {
        t,
        x12,
        ah_h: None,
        ah_a: None,
        ou_o: None,
        ou_u: None,
    }
}

#[test]
fn fair_odds_three_way() {
    // decimals [1.9, 3.6, 4.1]: margin about 4.8 percent
    let r = calculate_fair_odds(&[1900, 3600, 4100], 3, 3).expect("fair");
    assert_eq!(r, vec![1960, 3820, 4388]);
}

#[test]
fn fair_odds_round_trip_with_zero_margin() {
    // 1/2 + 1/4 + 1/4 == 1: the fair odds are the input itself
    let r = calculate_fair_odds(&[2000, 4000, 4000], 3, 3).expect("fair");
    assert_eq!(r, vec![2000, 4000, 4000]);
    let r2 = calculate_fair_odds(&[2000, 2000], 3, 2).expect("fair");
    assert_eq!(r2, vec![2000, 2000]);
}

#[test]
fn fair_odds_rejects_high_margin() {
    // 1/1.5 + 1/2.0 - 1 = 16.7 percent margin: above the 12 percent cap
    assert!(calculate_fair_odds(&[1500, 2000], 3, 2).is_none());
    // about ten percent margin passes
    assert!(calculate_fair_odds(&[1600, 2100], 3, 2).is_some());
}

#[test]
fn fair_odds_rejects_bad_inputs() {
    assert!(calculate_fair_odds(&[2000, 0], 3, 2).is_none());
    assert!(calculate_fair_odds(&[2000, -5], 3, 2).is_none());
    assert!(calculate_fair_odds(&[2000], 3, 2).is_none());
}

#[test]
fn merge_appends_in_time_order() {
    let mut rows: Vec<OddsRow> = Vec::new();
    merge_odds_entry(&mut rows, row(10, Some(vec![1, 2, 3])));
    merge_odds_entry(&mut rows, row(5, Some(vec![4, 5, 6])));
    merge_odds_entry(&mut rows, row(20, Some(vec![7, 8, 9])));
    assert_eq!(rows.len(), 3);
    assert_eq!(rows[0].t, 5);
    assert_eq!(rows[1].t, 10);
    assert_eq!(rows[2].t, 20);
}

#[test]
fn merge_replaces_same_timestamp() {
    let mut rows: Vec<OddsRow> = Vec::new();
    merge_odds_entry(&mut rows, row(10, Some(vec![1, 2, 3])));
    merge_odds_entry(&mut rows, row(10, Some(vec![9, 9, 9])));
    assert_eq!(rows.len(), 1);
    assert_eq!(rows[0].x12, Some(vec![9, 9, 9]));
}

#[test]
fn pinnacle_compaction_skips_equal_payload() {
    let mut rows: Vec<OddsRow> = Vec::new();
    assert!(merge_history(&mut rows, Some(row(1, Some(vec![1, 2, 3])))));
    // same payload, later timestamp: not appended
    assert!(!merge_history(&mut rows, Some(row(2, Some(vec![1, 2, 3])))));
    assert_eq!(rows.len(), 1);
    assert_eq!(rows[0].t, 1);
    // different payload: appended
    assert!(merge_history(&mut rows, Some(row(3, Some(vec![4, 5, 6])))));
    assert_eq!(rows.len(), 2);
}

use odds_pipeline::market::{
    build_market_mapping, map_market_type, MarketReference, MarketType, MonacoMarket,
};
use odds_pipeline::monaco::build_fixture_structure;
use odds_pipeline::monaco::MonacoRecord;
use odds_pipeline::record::LinesEntry;
use odds_pipeline::monaco::{
    build_latest_t, build_monaco_ids, build_odds_update, project_line_sides, project_x12,
    should_zero_market, MonacoOrderBook,
};
use odds_pipeline::numeric::{monaco_encode, pow10_i64, rescale_odds, round_half_even_div};
use odds_pipeline::order_book::{apply_level, MonacoPrice, OrderBook, PriceLevel};

fn against(outcome: &str, price: i64, liquidity: i64) -> MonacoPrice {
    MonacoPrice {
        side: "Against".to_string(),
        outcome_id: outcome.to_string(),
        price,
        liquidity,
    }
}

fn x12_market_mapping() -> odds_pipeline::market::MarketMapping {
    let market = MonacoMarket {
        id: "M1".to_string(),
        name: "Full Time Result".to_string(),
        market_type: MarketReference {
            ids: vec!["FOOTBALL_FULL_TIME_RESULT".to_string()],
            ref_type: "marketTypes".to_string(),
        },
        event: MarketReference {
            ids: vec!["E1".to_string()],
            ref_type: "events".to_string(),
        },
        market_outcomes: MarketReference {
            ids: vec!["O1".to_string(), "O2".to_string(), "O3".to_string()],
            ref_type: "outcomes".to_string(),
        },
        prices: None,
        status: None,
        market_value: None,
        in_play_status: None,
    };
    build_market_mapping(&market).expect("mapping")
}

#[test]
fn rounding_half_to_even() {
    assert_eq!(round_half_even_div(5, 2), 2);
    assert_eq!(round_half_even_div(7, 2), 4);
    assert_eq!(round_half_even_div(-5, 2), -2);
    assert_eq!(round_half_even_div(9405, 10), 940);
    assert_eq!(pow10_i64(3), 1000);
}

#[test]
fn monaco_margin_encoding() {
    // a decimal price of 1.95 lands on the 1940/1941 boundary and rounds to even
    assert_eq!(monaco_encode(1950), 1940);
    assert_eq!(monaco_encode(3400), 3376);
    assert_eq!(monaco_encode(4200), 4168);
    assert_eq!(monaco_encode(1000), 1000);
}

#[test]
fn odds_rescaling_half_to_even() {
    assert_eq!(rescale_odds(19, 1), 1900);
    assert_eq!(rescale_odds(190005, 5), 1900);
    assert_eq!(rescale_odds(190050, 5), 1900);
    assert_eq!(rescale_odds(190150, 5), 1902);
    assert_eq!(rescale_odds(1900, 3), 1900);
}

#[test]
fn ladder_keeps_descending_prices() {
    let mut levels: Vec<PriceLevel> = Vec::new();
    apply_level(&mut levels, 1800, 100_000);
    apply_level(&mut levels, 1950, 50_000);
    apply_level(&mut levels, 1900, 25_000);
    assert_eq!(levels.len(), 3);
    assert!(levels[0].price > levels[1].price && levels[1].price > levels[2].price);
    assert!(levels.iter().all(|l| l.liquidity > 0));
}

#[test]
fn zero_liquidity_removes_exactly_one_level() {
    let mut levels: Vec<PriceLevel> = Vec::new();
    apply_level(&mut levels, 1800, 100_000);
    apply_level(&mut levels, 1950, 50_000);
    apply_level(&mut levels, 1950, 0);
    assert_eq!(levels.len(), 1);
    assert_eq!(levels[0].price, 1800);
    assert_eq!(levels[0].liquidity, 100_000);
}

#[test]
fn overwrite_replaces_liquidity_in_place() {
    let mut levels: Vec<PriceLevel> = Vec::new();
    apply_level(&mut levels, 1800, 100_000);
    apply_level(&mut levels, 1800, 75_000);
    assert_eq!(levels.len(), 1);
    assert_eq!(levels[0].liquidity, 75_000);
}

#[test]
fn best_price_projection_for_three_way_market() {
    // push O1 @ 1.80/100, O1 @ 1.95/50, O2 @ 3.40/80, O3 @ 4.20/60
    let mapping = x12_market_mapping();
    let mut store = MonacoOrderBook::new();
    let prices = vec![
        against("O1", 1800, 100_000),
        against("O1", 1950, 50_000),
        against("O2", 3400, 80_000),
        against("O3", 4200, 60_000),
    ];
    let outcome_ids = vec!["O1".to_string(), "O2".to_string(), "O3".to_string()];
    let snap = store.update(7, &prices, MarketType::X12, &outcome_ids);
    let (odds, stakes) = project_x12(&snap, &vec![mapping]);
    assert_eq!(odds, vec![1940, 3376, 4168]);
    assert_eq!(stakes, vec![50_000, 80_000, 60_000]);
}

#[test]
fn market_zeroing_keeps_lines() {
    // after the status update removes the book the projection yields zeros
    let mapping = x12_market_mapping();
    let mut store = MonacoOrderBook::new();
    let prices = vec![against("O1", 1950, 50_000)];
    let outcome_ids = vec!["O1".to_string(), "O2".to_string(), "O3".to_string()];
    let _ = store.update(7, &prices, MarketType::X12, &outcome_ids);
    assert!(should_zero_market("Closed", "NotApplicable"));
    assert!(should_zero_market("Open", "InPlay"));
    assert!(!should_zero_market("Open", "NotApplicable"));
    store.remove(7, MarketType::X12);
    assert!(store.get_order_book(7, MarketType::X12).is_none());
    let empty = OrderBook::new();
    let (odds, stakes) = project_x12(&empty, &vec![mapping.clone()]);
    assert_eq!(odds, vec![0, 0, 0]);
    assert_eq!(stakes, vec![0, 0, 0]);
    // lines stay intact on the handicap projection of an empty book
    let lines = vec![-500i64, 0, 500];
    let (h, a, hs, asx) = project_line_sides(&empty, &vec![mapping], MarketType::Ah, &lines);
    assert_eq!(h, vec![0, 0, 0]);
    assert_eq!(a, vec![0, 0, 0]);
    assert_eq!(hs, vec![0, 0, 0]);
    assert_eq!(asx, vec![0, 0, 0]);
}

#[test]
fn market_type_mapping() {
    assert_eq!(map_market_type("FOOTBALL_FULL_TIME_RESULT"), Some(MarketType::X12));
    assert_eq!(
        map_market_type("FOOTBALL_FULL_TIME_RESULT_HANDICAP"),
        Some(MarketType::Ah)
    );
    assert_eq!(map_market_type("FOOTBALL_OVER_UNDER_TOTAL_GOALS"), Some(MarketType::Ou));
    assert_eq!(map_market_type("FOOTBALL_CORRECT_SCORE"), None);
}

#[test]
fn handicap_line_from_market_name() {
    let market = MonacoMarket {
        id: "M2".to_string(),
        name: "Goal Handicap +1.5".to_string(),
        market_type: MarketReference {
            ids: vec!["FOOTBALL_FULL_TIME_RESULT_HANDICAP".to_string()],
            ref_type: "marketTypes".to_string(),
        },
        event: MarketReference {
            ids: vec!["E1".to_string()],
            ref_type: "events".to_string(),
        },
        market_outcomes: MarketReference {
            ids: vec!["H".to_string(), "A".to_string()],
            ref_type: "outcomes".to_string(),
        },
        prices: None,
        status: None,
        market_value: None,
        in_play_status: None,
    };
    let mapping = build_market_mapping(&market).expect("mapping");
    assert_eq!(mapping.line_milli, Some(1500));
    assert_eq!(mapping.market_type, MarketType::Ah);
}

#[test]
fn normalized_update_from_single_line_market() {
    let market = MonacoMarket {
        id: "M3".to_string(),
        name: "Goal Handicap -0.25".to_string(),
        market_type: MarketReference {
            ids: vec!["FOOTBALL_FULL_TIME_RESULT_HANDICAP".to_string()],
            ref_type: "marketTypes".to_string(),
        },
        event: MarketReference {
            ids: vec!["E1".to_string()],
            ref_type: "events".to_string(),
        },
        market_outcomes: MarketReference {
            ids: vec!["H".to_string(), "A".to_string()],
            ref_type: "outcomes".to_string(),
        },
        prices: None,
        status: None,
        market_value: None,
        in_play_status: None,
    };
    let mapping = build_market_mapping(&market).expect("mapping");
    let mut store = MonacoOrderBook::new();
    let prices = vec![against("H", 2100, 10_000), against("A", 1800, 20_000)];
    let ids = vec!["H".to_string(), "A".to_string()];
    let snap = store.update(9, &prices, MarketType::Ah, &ids);
    let update = build_odds_update(9, &mapping, &snap, 1_000, 900);
    assert_eq!(update.fixture_id, 9);
    assert_eq!(update.bookie_id, 1);
    assert_eq!(update.bookmaker, "Monaco");
    assert_eq!(update.ah_lines, Some(vec![-250]));
    assert_eq!(update.ah_h, Some(vec![monaco_encode(2100) as i32]));
    assert_eq!(update.ah_a, Some(vec![monaco_encode(1800) as i32]));
    let latest = update.latest_t.expect("latest");
    assert_eq!(latest.ah_ts, Some(1_000));
    assert_eq!(latest.lines_ts, Some(1_000));
    let ids_entry = update.ids.expect("ids");
    assert_eq!(ids_entry.line_ids.ah.len(), 2);
    let lt = build_latest_t(5, MarketType::Ou);
    assert_eq!(lt.ou_ts, Some(5));
    assert_eq!(lt.x12_ts, None);
    let _ = build_monaco_ids(5, &mapping, &snap);
}

#[test]
fn record_merge_projects_over_current_lines() {
    let mapping = x12_market_mapping();
    let mut store = MonacoOrderBook::new();
    let prices = vec![
        against("O1", 1800, 100_000),
        against("O1", 1950, 50_000),
        against("O2", 3400, 80_000),
        against("O3", 4200, 60_000),
    ];
    let outcome_ids = vec!["O1".to_string(), "O2".to_string(), "O3".to_string()];
    let snap = store.update(7, &prices, MarketType::X12, &outcome_ids);
    let mut rec = MonacoRecord::new();
    rec.lines.push(LinesEntry { t: 1, ah: None, ou: None });
    rec.apply_best_prices(MarketType::X12, &snap, &vec![mapping.clone()], 50);
    assert_eq!(rec.odds_x12.len(), 1);
    assert_eq!(rec.odds_x12[0].t, 50);
    assert_eq!(rec.odds_x12[0].x12, Some(vec![1940, 3376, 4168]));
    assert_eq!(rec.max_stakes.len(), 1);
    assert_eq!(rec.max_stakes[0].max_stake_x12, Some(vec![50_000, 80_000, 60_000]));
    assert_eq!(rec.latest_t.x12_ts, Some(50));
    assert_eq!(rec.latest_t.stakes_ts, Some(50));
    // same timestamp: the row is replaced, not duplicated
    rec.apply_best_prices(MarketType::X12, &snap, &vec![mapping.clone()], 50);
    assert_eq!(rec.odds_x12.len(), 1);
    // the market closes: projecting the empty book zeroes odds and stakes
    // while the row count grows by one
    let empty = OrderBook::new();
    rec.apply_best_prices(MarketType::X12, &empty, &vec![mapping], 60);
    assert_eq!(rec.odds_x12.len(), 2);
    assert_eq!(rec.odds_x12[1].x12, Some(vec![0, 0, 0]));
    assert_eq!(rec.max_stakes[0].max_stake_x12, Some(vec![0, 0, 0]));
}

#[test]
fn snapshot_aggregation_sums_equal_prices() {
    let mut book = OrderBook::new();
    // two records at the same price on the same outcome sum their liquidity
    book.add_entry(&against("O1", 1950, 30_000));
    book.add_entry(&against("O1", 1950, 20_000));
    book.add_entry(&against("O1", 1800, 10_000));
    // a back-side record is ignored
    book.add_entry(&MonacoPrice {
        side: "Back".to_string(),
        outcome_id: "O1".to_string(),
        price: 1700,
        liquidity: 99_000,
    });
    assert_eq!(book.outcomes.len(), 1);
    let levels = &book.outcomes[0].levels;
    assert_eq!(levels.len(), 2);
    assert_eq!(levels[0].price, 1950);
    assert_eq!(levels[0].liquidity, 50_000);
    assert_eq!(levels[1].price, 1800);
}

#[test]
fn fixture_structure_sorts_lines_and_sums_stakes() {
    let ah_market = |id: &str, name: &str, prices: Vec<MonacoPrice>| MonacoMarket {
        id: id.to_string(),
        name: name.to_string(),
        market_type: MarketReference {
            ids: vec!["FOOTBALL_FULL_TIME_RESULT_HANDICAP".to_string()],
            ref_type: "marketTypes".to_string(),
        },
        event: MarketReference {
            ids: vec!["E1".to_string()],
            ref_type: "events".to_string(),
        },
        market_outcomes: MarketReference {
            ids: vec![format!("{id}-H"), format!("{id}-A")],
            ref_type: "outcomes".to_string(),
        },
        prices: Some(prices),
        status: None,
        market_value: None,
        in_play_status: None,
    };
    let m_high = ah_market(
        "MH",
        "Goal Handicap +1.5",
        vec![
            MonacoPrice {
                side: "Against".to_string(),
                outcome_id: "MH-H".to_string(),
                price: 1900,
                liquidity: 10_000,
            },
            MonacoPrice {
                side: "Against".to_string(),
                outcome_id: "MH-H".to_string(),
                price: 1950,
                liquidity: 5_000,
            },
            MonacoPrice {
                side: "Against".to_string(),
                outcome_id: "MH-A".to_string(),
                price: 2000,
                liquidity: 7_000,
            },
        ],
    );
    let m_low = ah_market("ML", "Goal Handicap -0.5", vec![]);
    let markets = vec![m_high, m_low];
    let fs = build_fixture_structure(&markets, 42);
    assert_eq!(fs.lines_entry.t, 42);
    // the later market carries the lower line and sorts first
    assert_eq!(fs.lines_entry.ah, Some(vec![-500, 1500]));
    assert_eq!(fs.lines_entry.ou, None);
    let stakes = fs.max_stakes_entry.max_stake_ah.expect("ah stakes");
    assert_eq!(stakes.h, vec![0, 15_000]);
    assert_eq!(stakes.a, vec![0, 7_000]);
    // identifiers follow the sorted line order
    assert_eq!(
        fs.ids_entry.line_ids.ah,
        vec!["ML-H", "ML-A", "MH-H", "MH-A"]
    );
}

#[test]
fn record_merge_over_handicap_lines() {
    let market = MonacoMarket {
        id: "M4".to_string(),
        name: "Goal Handicap -0.5".to_string(),
        market_type: MarketReference {
            ids: vec!["FOOTBALL_FULL_TIME_RESULT_HANDICAP".to_string()],
            ref_type: "marketTypes".to_string(),
        },
        event: MarketReference {
            ids: vec!["E1".to_string()],
            ref_type: "events".to_string(),
        },
        market_outcomes: MarketReference {
            ids: vec!["H".to_string(), "A".to_string()],
            ref_type: "outcomes".to_string(),
        },
        prices: None,
        status: None,
        market_value: None,
        in_play_status: None,
    };
    let mapping = build_market_mapping(&market).expect("mapping");
    let mut store = MonacoOrderBook::new();
    let prices = vec![against("H", 2100, 10_000), against("A", 1800, 20_000)];
    let ids = vec!["H".to_string(), "A".to_string()];
    let snap = store.update(9, &prices, MarketType::Ah, &ids);
    let mut rec = MonacoRecord::new();
    rec.lines.push(LinesEntry { t: 1, ah: Some(vec![-500, 0]), ou: None });
    rec.apply_best_prices(MarketType::Ah, &snap, &vec![mapping], 70);
    assert_eq!(rec.odds_ah.len(), 1);
    let row = &rec.odds_ah[0];
    // aligned with the two current lines: the mapped line filled, the other
    // defined and zero
    assert_eq!(row.ah_h, Some(vec![monaco_encode(2100) as i32, 0]));
    assert_eq!(row.ah_a, Some(vec![monaco_encode(1800) as i32, 0]));
    let stakes = rec.max_stakes[0].max_stake_ah.as_ref().expect("stakes");
    assert_eq!(stakes.h, vec![10_000, 0]);
    assert_eq!(stakes.a, vec![20_000, 0]);
    assert_eq!(rec.latest_t.ah_ts, Some(70));
}

use odds_pipeline::cache::{Cache, BookmakerOdds};
use odds_pipeline::filter::{
    evaluate, filter_matches, CompareExpr, CompareOp, ComputedValue, ArithOp, EvalCtx, FieldPath,
    FilterDoc, FilterExpr, ValueOrComputed, VectorExpr, VectorOp,
};
use odds_pipeline::rational::Q;
use odds_pipeline::filter::PathField;
use odds_pipeline::session::{ClientState, SessionAction};
use odds_pipeline::update::OddsUpdate;

fn base_update(fixture_id: i64, timestamp: i64) -> OddsUpdate {
    let mut u = OddsUpdate::default();
    u.fixture_id = fixture_id;
    u.bookie_id = 2;
    u.bookmaker = "B".to_string();
    u.timestamp = timestamp;
    u.decimals = 3;
    u
}

fn doc_from_cache(cache: &Cache, fixture_id: i64) -> FilterDoc {
    let fx = cache
        .fixtures
        .iter()
        .find(|f| f.fixture_id == fixture_id)
        .expect("fixture");
    let mut bookmakers: Vec<(String, BookmakerOdds)> = Vec::new();
    for (label, b) in fx.bookmakers.iter() {
        let mut hist = Vec::new();
        for h in b.history.iter() {
            hist.push(clone_snap(h));
        }
        bookmakers.push((
            label.clone(),
            BookmakerOdds {
                bookie_id: b.bookie_id,
                decimals: b.decimals,
                current: clone_snap(&b.current),
                history: hist,
            },
        ));
    }
    FilterDoc {
        fixture_id,
        timestamp: fx.last_update,
        start: 0,
        end: 0,
        bookmakers,
    }
}

fn clone_snap(
    s: &odds_pipeline::cache::BookmakerSnapshot,
) -> odds_pipeline::cache::BookmakerSnapshot {
    odds_pipeline::cache::BookmakerSnapshot {
        x12_h: s.x12_h,
        x12_x: s.x12_x,
        x12_a: s.x12_a,
        fair_x12_h: s.fair_x12_h,
        fair_x12_x: s.fair_x12_x,
        fair_x12_a: s.fair_x12_a,
        ah_lines: s.ah_lines.clone(),
        ah_h: s.ah_h.clone(),
        ah_a: s.ah_a.clone(),
        fair_ah_h: s.fair_ah_h.clone(),
        fair_ah_a: s.fair_ah_a.clone(),
        ou_lines: s.ou_lines.clone(),
        ou_o: s.ou_o.clone(),
        ou_u: s.ou_u.clone(),
        fair_ou_o: s.fair_ou_o.clone(),
        fair_ou_u: s.fair_ou_u.clone(),
        ids: s.ids.clone(),
        max_stakes: s.max_stakes.clone(),
        latest_t: s.latest_t,
        timestamp: s.timestamp,
    }
}

#[test]
fn cache_applies_columns_and_fair_odds() {
    let mut cache = Cache::new(10);
    let mut u = base_update(1, 100);
    u.x12 = Some(vec![1900, 3600, 4100]);
    cache.apply_update(u);
    let doc = doc_from_cache(&cache, 1);
    let b = &doc.bookmakers[0].1;
    assert_eq!(b.current.x12_h, Some(1900));
    assert_eq!(b.current.fair_x12_h, Some(1960));
    assert_eq!(b.current.fair_x12_x, Some(3820));
    assert_eq!(b.current.fair_x12_a, Some(4388));
    assert_eq!(b.history.len(), 0);
}

#[test]
fn cache_fair_vectors_align_with_lines() {
    let mut cache = Cache::new(10);
    let mut u = base_update(1, 100);
    u.ah_lines = Some(vec![-500, 0]);
    u.ah_h = Some(vec![2000, 0]);
    u.ah_a = Some(vec![2000, 1500]);
    cache.apply_update(u);
    let doc = doc_from_cache(&cache, 1);
    let b = &doc.bookmakers[0].1;
    assert_eq!(b.current.fair_ah_h.len(), 2);
    // the zero-margin pair de-vigs to itself; the broken pair yields zeros
    assert_eq!(b.current.fair_ah_h[0], 2000);
    assert_eq!(b.current.fair_ah_a[0], 2000);
    assert_eq!(b.current.fair_ah_h[1], 0);
    assert_eq!(b.current.fair_ah_a[1], 0);
}

#[test]
fn cache_history_is_capped_and_ordered() {
    let mut cache = Cache::new(10);
    for i in 0..25i64 {
        let mut u = base_update(1, 100 + i);
        u.x12 = Some(vec![2000, 4000, 4000]);
        cache.apply_update(u);
    }
    let doc = doc_from_cache(&cache, 1);
    let b = &doc.bookmakers[0].1;
    assert!(b.history.len() <= 20);
    assert_eq!(b.history.len(), 20);
    for w in b.history.windows(2) {
        assert!(w[0].timestamp >= w[1].timestamp);
    }
    assert!(b.current.timestamp >= b.history[0].timestamp);
}

#[test]
fn cache_evicts_oldest_fixture_first() {
    let mut cache = Cache::new(2);
    cache.apply_update(base_update(1, 50));
    cache.apply_update(base_update(2, 10));
    // fixture 3 arrives at capacity: fixture 2 (oldest last_update) leaves
    cache.apply_update(base_update(3, 99));
    assert_eq!(cache.len(), 2);
    assert!(cache.fixtures.iter().any(|f| f.fixture_id == 1));
    assert!(cache.fixtures.iter().any(|f| f.fixture_id == 3));
    assert!(!cache.fixtures.iter().any(|f| f.fixture_id == 2));
}

#[test]
fn cache_eviction_breaks_ties_by_fixture_id() {
    let mut cache = Cache::new(2);
    cache.apply_update(base_update(7, 10));
    cache.apply_update(base_update(4, 10));
    cache.apply_update(base_update(9, 20));
    assert!(!cache.fixtures.iter().any(|f| f.fixture_id == 4));
    assert!(cache.fixtures.iter().any(|f| f.fixture_id == 7));
}

fn simple_path(book: &str, field: odds_pipeline::filter::PathField) -> FieldPath {
    FieldPath::Simple {
        bookmaker: book.to_string(),
        field,
        line: None,
    }
}

#[test]
fn per_line_and_matches_single_common_line() {
    let mut cache = Cache::new(10);
    let mut u = base_update(1, 100);
    u.ah_lines = Some(vec![-500, -250, 0]);
    u.ah_h = Some(vec![2100, 2200, 2300]);
    u.ah_a = Some(vec![1800, 1750, 1700]);
    cache.apply_update(u);
    let doc = doc_from_cache(&cache, 1);
    let filter = FilterExpr::PerLineAnd(vec![
        FilterExpr::Compare(CompareExpr {
            field: simple_path("B", PathField::AhH),
            op: CompareOp::Gte,
            value: Some(ValueOrComputed::Literal(Q { num: 2150, den: 1 })),
        }),
        FilterExpr::Compare(CompareExpr {
            field: simple_path("B", PathField::AhA),
            op: CompareOp::Gte,
            value: Some(ValueOrComputed::Literal(Q { num: 1750, den: 1 })),
        }),
    ]);
    let (ok, traces) = filter_matches(&doc, &filter);
    assert!(ok);
    // both matches sit at line -0.25 (minus 250 thousandths)
    let lined: Vec<_> = traces
        .iter()
        .filter(|t| t.left_tag.line == Some(-250))
        .collect();
    assert_eq!(traces.len(), 2);
    assert_eq!(lined.len(), 2);
}

#[test]
fn per_line_and_fails_without_common_line() {
    let mut cache = Cache::new(10);
    let mut u = base_update(1, 100);
    u.ah_lines = Some(vec![-500, -250]);
    u.ah_h = Some(vec![2500, 2000]);
    u.ah_a = Some(vec![1500, 2100]);
    cache.apply_update(u);
    let doc = doc_from_cache(&cache, 1);
    // home passes only at -0.5, away only at -0.25: no common line
    let filter = FilterExpr::PerLineAnd(vec![
        FilterExpr::Compare(CompareExpr {
            field: simple_path("B", PathField::AhH),
            op: CompareOp::Gte,
            value: Some(ValueOrComputed::Literal(Q { num: 2400, den: 1 })),
        }),
        FilterExpr::Compare(CompareExpr {
            field: simple_path("B", PathField::AhA),
            op: CompareOp::Gte,
            value: Some(ValueOrComputed::Literal(Q { num: 2050, den: 1 })),
        }),
    ]);
    let (ok, _) = filter_matches(&doc, &filter);
    assert!(!ok);
}

#[test]
fn history_operator_uses_oldest_snapshot_in_window() {
    let mut cache = Cache::new(10);
    // snapshots at 70, 40 and 10 seconds of age, then the current value
    for (ts, h) in [(30_000i64, 2200i32), (60_000, 2100), (90_000, 2020), (100_000, 2000)] {
        let mut u = base_update(1, ts);
        u.x12 = Some(vec![h, 4000, 4000]);
        cache.apply_update(u);
    }
    let doc = doc_from_cache(&cache, 1);
    // current / history(60s) <= 0.97: picks the 40s-old snapshot (2100)
    let ratio = ComputedValue {
        op: ArithOp::Divide,
        left: ValueOrComputed::Field(Box::new(simple_path("B", PathField::X12H))),
        right: ValueOrComputed::Computed(Box::new(ComputedValue {
            op: ArithOp::History,
            left: ValueOrComputed::Field(Box::new(simple_path("B", PathField::X12H))),
            right: ValueOrComputed::Literal(Q { num: 60_000, den: 1 }),
        })),
    };
    let filter = FilterExpr::Compare(CompareExpr {
        field: FieldPath::Computed(Box::new(ratio)),
        op: CompareOp::Lte,
        value: Some(ValueOrComputed::Literal(Q { num: 97, den: 100 })),
    });
    let (ok, _) = filter_matches(&doc, &filter);
    assert!(ok);
    // with a 20 second window no snapshot qualifies and nothing matches
    let ratio2 = ComputedValue {
        op: ArithOp::History,
        left: ValueOrComputed::Field(Box::new(simple_path("B", PathField::X12H))),
        right: ValueOrComputed::Literal(Q { num: 5_000, den: 1 }),
    };
    let filter2 = FilterExpr::Compare(CompareExpr {
        field: FieldPath::Computed(Box::new(ratio2)),
        op: CompareOp::Exists,
        value: None,
    });
    let (ok2, _) = filter_matches(&doc, &filter2);
    assert!(!ok2);
}

#[test]
fn filter_evaluation_is_repeatable() {
    let mut cache = Cache::new(10);
    let mut u = base_update(1, 100);
    u.x12 = Some(vec![1900, 3600, 4100]);
    cache.apply_update(u);
    let doc = doc_from_cache(&cache, 1);
    let filter = FilterExpr::And(vec![FilterExpr::Compare(CompareExpr {
        field: simple_path("B", PathField::X12H),
        op: CompareOp::Gt,
        value: Some(ValueOrComputed::Literal(Q { num: 1800, den: 1 })),
    })]);
    let (ok1, t1) = filter_matches(&doc, &filter);
    let (ok2, t2) = filter_matches(&doc, &filter);
    assert_eq!(ok1, ok2);
    assert_eq!(t1, t2);
}

#[test]
fn vector_aggregate_binds_variable() {
    let mut cache = Cache::new(10);
    let mut u = base_update(1, 100);
    u.x12 = Some(vec![1900, 3600, 4100]);
    cache.apply_update(u);
    let doc = doc_from_cache(&cache, 1);
    let filter = FilterExpr::And(vec![
        FilterExpr::Vector(VectorExpr {
            function: VectorOp::Max,
            source: vec![simple_path("B", PathField::AggX12)],
            as_var: Some("m".to_string()),
        }),
        FilterExpr::Compare(CompareExpr {
            field: FieldPath::Var("m".to_string()),
            op: CompareOp::Eq,
            value: Some(ValueOrComputed::Literal(Q { num: 4100, den: 1 })),
        }),
    ]);
    let mut ctx = EvalCtx {
        vars: Vec::new(),
        traces: Vec::new(),
    };
    assert!(evaluate(&doc, &filter, &mut ctx));
}

#[test]
fn enter_stay_leave_protocol() {
    let mut cache = Cache::new(10);
    let mut u = base_update(1, 100);
    u.x12 = Some(vec![2000, 4000, 4000]);
    cache.apply_update(u.clone());
    let doc_match = doc_from_cache(&cache, 1);
    let filter = FilterExpr::Compare(CompareExpr {
        field: simple_path("B", PathField::X12H),
        op: CompareOp::Gte,
        value: Some(ValueOrComputed::Literal(Q { num: 1900, den: 1 })),
    });
    let mut state = ClientState::new();
    state.filter = Some(filter);
    // enter: forwarded and recorded
    let (a1, _) = state.handle_update(&doc_match);
    assert_eq!(a1, SessionAction::ForwardAndAdd);
    // stay: forwarded
    let (a2, _) = state.handle_update(&doc_match);
    assert_eq!(a2, SessionAction::Forward);
    // the odds drop below the filter: exactly one removal
    let mut u2 = base_update(1, 200);
    u2.x12 = Some(vec![1500, 4000, 4000]);
    cache.apply_update(u2);
    let doc_fail = doc_from_cache(&cache, 1);
    let (a3, t3) = state.handle_update(&doc_fail);
    assert_eq!(a3, SessionAction::Remove);
    assert!(t3.is_empty());
    // and afterwards silence until it matches again
    let (a4, _) = state.handle_update(&doc_fail);
    assert_eq!(a4, SessionAction::Drop);
    let (a5, _) = state.handle_update(&doc_match);
    assert_eq!(a5, SessionAction::ForwardAndAdd);
}

#[test]
fn snapshot_decision_follows_filter() {
    let mut cache = Cache::new(10);
    let mut u = base_update(1, 100);
    u.x12 = Some(vec![2000, 4000, 4000]);
    cache.apply_update(u);
    let doc = doc_from_cache(&cache, 1);
    let mut no_filter = ClientState::new();
    let (send, _) = no_filter.snapshot_decision(&doc);
    assert!(send);
    let mut with_filter = ClientState::new();
    with_filter.filter = Some(FilterExpr::Compare(CompareExpr {
        field: simple_path("B", PathField::X12H),
        op: CompareOp::Gt,
        value: Some(ValueOrComputed::Literal(Q { num: 9000, den: 1 })),
    }));
    let (send2, _) = with_filter.snapshot_decision(&doc);
    assert!(!send2);
    assert!(!with_filter.is_matching(1));
}

#[test]
fn arithmetic_pairs_equal_lines_only() {
    // the two sides quote line sets shifted by one thousandth: only the
    // exactly-equal line pairs
    let mut cache = Cache::new(10);
    let mut u = base_update(1, 100);
    u.ah_lines = Some(vec![-500, -250]);
    u.ah_h = Some(vec![2100, 2200]);
    cache.apply_update(u);
    let mut u2 = base_update(1, 110);
    u2.ah_a = Some(vec![1800, 1750]);
    cache.apply_update(u2);
    let doc = doc_from_cache(&cache, 1);
    // ah_h / ah_a line-matched division resolves per common line
    let ratio = ComputedValue {
        op: ArithOp::Divide,
        left: ValueOrComputed::Field(Box::new(simple_path("B", PathField::AhH))),
        right: ValueOrComputed::Field(Box::new(simple_path("B", PathField::AhA))),
    };
    let filter = FilterExpr::Compare(CompareExpr {
        field: FieldPath::Computed(Box::new(ratio)),
        op: CompareOp::Gt,
        value: Some(ValueOrComputed::Literal(Q { num: 1, den: 1 })),
    });
    let (ok, traces) = filter_matches(&doc, &filter);
    // 2100/1800 and 2200/1750 both exceed one
    assert!(ok);
    assert_eq!(traces.len(), 2);
}

#[test]
fn line_bracket_addresses_one_line() {
    let mut cache = Cache::new(10);
    let mut u = base_update(1, 100);
    u.ah_lines = Some(vec![-500, -250]);
    u.ah_h = Some(vec![2100, 2200]);
    cache.apply_update(u);
    let doc = doc_from_cache(&cache, 1);
    let filter = FilterExpr::Compare(CompareExpr {
        field: FieldPath::Simple {
            bookmaker: "B".to_string(),
            field: PathField::AhH,
            line: Some(-250),
        },
        op: CompareOp::Eq,
        value: Some(ValueOrComputed::Literal(Q { num: 2200, den: 1 })),
    });
    let (ok, traces) = filter_matches(&doc, &filter);
    assert!(ok);
    assert_eq!(traces.len(), 1);
    assert_eq!(traces[0].left_tag.line, Some(-250));
    // a line absent from the set resolves to nothing
    let missing = FilterExpr::Compare(CompareExpr {
        field: FieldPath::Simple {
            bookmaker: "B".to_string(),
            field: PathField::AhH,
            line: Some(-999),
        },
        op: CompareOp::Exists,
        value: None,
    });
    let (ok2, _) = filter_matches(&doc, &missing);
    assert!(!ok2);
}

#[test]
fn boolean_combinators_and_in() {
    let mut cache = Cache::new(10);
    let mut u = base_update(1, 100);
    u.x12 = Some(vec![1900, 3600, 4100]);
    cache.apply_update(u);
    let doc = doc_from_cache(&cache, 1);
    let gt = |v: i64| {
        FilterExpr::Compare(CompareExpr {
            field: simple_path("B", PathField::X12H),
            op: CompareOp::Gt,
            value: Some(ValueOrComputed::Literal(Q { num: v, den: 1 })),
        })
    };
    let (ok_or, _) = filter_matches(&doc, &FilterExpr::Or(vec![gt(5000), gt(1000)]));
    assert!(ok_or);
    let (ok_not, _) = filter_matches(&doc, &FilterExpr::Not(Box::new(gt(5000))));
    assert!(ok_not);
    let (ok_and, _) = filter_matches(&doc, &FilterExpr::And(vec![gt(1000), gt(5000)]));
    assert!(!ok_and);
    // membership with the comparison tolerance
    let inside = FilterExpr::Compare(CompareExpr {
        field: simple_path("B", PathField::X12H),
        op: CompareOp::In,
        value: Some(ValueOrComputed::LiteralList(vec![
            Q { num: 1000, den: 1 },
            Q { num: 1900, den: 1 },
        ])),
    });
    let (ok_in, _) = filter_matches(&doc, &inside);
    assert!(ok_in);
}

#[test]
fn per_line_vector_keeps_common_lines() {
    let mut cache = Cache::new(10);
    let mut u = base_update(1, 100);
    u.ah_lines = Some(vec![-500, -250]);
    u.ah_h = Some(vec![2100, 2200]);
    u.ah_a = Some(vec![1800, 0]);
    cache.apply_update(u);
    let doc = doc_from_cache(&cache, 1);
    // the away side only quotes -0.5: per-line max exists at that line alone
    let filter = FilterExpr::And(vec![
        FilterExpr::Vector(VectorExpr {
            function: VectorOp::MaxPerLine,
            source: vec![
                simple_path("B", PathField::AhH),
                simple_path("B", PathField::AhA),
            ],
            as_var: Some("m".to_string()),
        }),
        FilterExpr::Compare(CompareExpr {
            field: FieldPath::Var("m".to_string()),
            op: CompareOp::Eq,
            value: Some(ValueOrComputed::Literal(Q { num: 2100, den: 1 })),
        }),
    ]);
    let (ok, _) = filter_matches(&doc, &filter);
    assert!(ok);
}

#[test]
fn overhanging_positions_label_by_index() {
    // the odds vector outruns the line set: the extra position reads its
    // index as the line value
    let mut cache = Cache::new(10);
    let mut u = base_update(1, 100);
    u.ah_lines = Some(vec![-500]);
    u.ah_h = Some(vec![2100, 2200]);
    cache.apply_update(u);
    let doc = doc_from_cache(&cache, 1);
    let probe = FilterExpr::Compare(CompareExpr {
        field: simple_path("B", PathField::AhH),
        op: CompareOp::Exists,
        value: None,
    });
    let (ok, traces) = filter_matches(&doc, &probe);
    assert!(ok);
    assert_eq!(traces.len(), 2);
    assert_eq!(traces[0].left_tag.line, Some(-500));
    assert_eq!(traces[1].left_tag.line, Some(1000));
}

#[test]
fn per_line_and_keeps_line_agnostic_traces() {
    // a scalar clause counts at every line and its trace survives pruning
    let mut cache = Cache::new(10);
    let mut u = base_update(1, 100);
    u.x12 = Some(vec![1900, 3600, 4100]);
    u.ah_lines = Some(vec![-500, -250]);
    u.ah_h = Some(vec![2100, 2200]);
    cache.apply_update(u);
    let doc = doc_from_cache(&cache, 1);
    let filter = FilterExpr::PerLineAnd(vec![
        FilterExpr::Compare(CompareExpr {
            field: simple_path("B", PathField::X12H),
            op: CompareOp::Gt,
            value: Some(ValueOrComputed::Literal(Q { num: 1800, den: 1 })),
        }),
        FilterExpr::Compare(CompareExpr {
            field: simple_path("B", PathField::AhH),
            op: CompareOp::Gte,
            value: Some(ValueOrComputed::Literal(Q { num: 2150, den: 1 })),
        }),
    ]);
    let (ok, traces) = filter_matches(&doc, &filter);
    assert!(ok);
    // one scalar trace (kept as line-agnostic) and one at the common line
    assert_eq!(traces.len(), 2);
    assert_eq!(traces[0].left_tag.line, None);
    assert_eq!(traces[1].left_tag.line, Some(-250));
}

#[test]
fn cache_update_leaves_sibling_bookmakers_alone() {
    let mut cache = Cache::new(10);
    let mut u1 = base_update(1, 100);
    u1.bookmaker = "A".to_string();
    u1.x12 = Some(vec![2000, 4000, 4000]);
    cache.apply_update(u1);
    let mut u2 = base_update(1, 200);
    u2.bookmaker = "B".to_string();
    u2.x12 = Some(vec![1900, 3600, 4100]);
    cache.apply_update(u2);
    let doc = doc_from_cache(&cache, 1);
    assert_eq!(doc.bookmakers.len(), 2);
    let a = &doc.bookmakers.iter().find(|(l, _)| l == "A").unwrap().1;
    assert_eq!(a.current.x12_h, Some(2000));
    assert_eq!(a.current.timestamp, 100);
}

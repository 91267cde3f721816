//! The filter expression language: boolean combinators, per-line
//! conjunction, comparisons with line-matched arithmetic, vector
//! aggregates, and history-windowed operands, evaluated over a fixture
//! document.
//!
//! Values are exact rationals; odds fields carry integer encodings and
//! lines thousandths, so two lines pair exactly when their thousandth
//! counts agree (a real-valued difference below `10^-3`).

use vstd::prelude::*;

use crate::cache::{BookmakerOdds, BookmakerSnapshot};
use crate::rational::{q_wf, spec_q_int, Q};

verus! {

/// The document a filter runs against: one fixture's per-bookmaker odds,
/// as pushed to clients.
pub struct FilterDoc {
    pub fixture_id: i64,
    pub timestamp: i64,
    pub start: i64,
    pub end: i64,
    pub bookmakers: Vec<(String, BookmakerOdds)>,
}

/// A resolvable field of the document.
#[derive(Debug, Clone, Copy, PartialEq, Eq, Structural)]
pub enum PathField {
    X12H,
    X12X,
    X12A,
    FairX12H,
    FairX12X,
    FairX12A,
    AhH,
    AhA,
    OuO,
    OuU,
    FairAhH,
    FairAhA,
    FairOuO,
    FairOuU,
    Timestamp,
    AggX12,
    AggAh,
    AggOu,
    AggFairX12,
    AggFairAh,
    AggFairOu,
    Literal,
}

/// Where a resolved value came from: the bookmaker (by position in the
/// document), the field, and the line it belongs to.
#[derive(Debug, Clone, Copy, PartialEq, Eq, Structural)]
pub struct Tag {
    pub book: Option<usize>,
    pub field: PathField,
    pub line: Option<i64>,
}

/// A resolved value sequence: values aligned with their provenance.
pub type Resolved = Vec<(Q, Tag)>;

/// A field path: a variable bound by a vector node, a direct document
/// field (optionally line-addressed), or a computed expression.
#[derive(Debug)]
pub enum FieldPath {
    Var(String),
    Simple { bookmaker: String, field: PathField, line: Option<i64> },
    Computed(Box<ComputedValue>),
}

/// A literal, a field path, or a nested computation.
#[derive(Debug)]
pub enum ValueOrComputed {
    Literal(Q),
    LiteralList(Vec<Q>),
    Field(Box<FieldPath>),
    Computed(Box<ComputedValue>),
}

/// A binary arithmetic node; `History` reads the operand's past value.
#[derive(Debug, Clone, Copy, PartialEq, Eq, Structural)]
pub enum ArithOp {
    Divide,
    Multiply,
    Add,
    Subtract,
    History,
}

/// One computed value.
#[derive(Debug)]
pub struct ComputedValue {
    pub op: ArithOp,
    pub left: ValueOrComputed,
    pub right: ValueOrComputed,
}

/// Comparison operators of the filter language.
#[derive(Debug, Clone, Copy, PartialEq, Eq, Structural)]
pub enum CompareOp {
    Eq,
    Neq,
    Gt,
    Gte,
    Lt,
    Lte,
    In,
    Exists,
}

/// One comparison.
#[derive(Debug)]
pub struct CompareExpr {
    pub field: FieldPath,
    pub op: CompareOp,
    pub value: Option<ValueOrComputed>,
}

/// Vector aggregation functions, flat and per-line.
#[derive(Debug, Clone, Copy, PartialEq, Eq, Structural)]
pub enum VectorOp {
    Avg,
    Max,
    Min,
    Sum,
    Count,
    AvgPerLine,
    MaxPerLine,
    MinPerLine,
    SumPerLine,
    CountPerLine,
}

/// A vector aggregation node, optionally binding its result to a variable.
#[derive(Debug)]
pub struct VectorExpr {
    pub function: VectorOp,
    pub source: Vec<FieldPath>,
    pub as_var: Option<String>,
}

/// A filter expression.
#[derive(Debug)]
pub enum FilterExpr {
    And(Vec<FilterExpr>),
    Or(Vec<FilterExpr>),
    Not(Box<FilterExpr>),
    PerLineAnd(Vec<FilterExpr>),
    Compare(CompareExpr),
    Vector(VectorExpr),
}

/// Height of an expression, the recursion measure of evaluation.
pub open spec fn expr_height(e: FilterExpr) -> nat
    decreases e,
{
    match e {
        FilterExpr::And(v) => 1 + list_height(v@, v@.len() as int),
        FilterExpr::Or(v) => 1 + list_height(v@, v@.len() as int),
        FilterExpr::PerLineAnd(v) => 1 + list_height(v@, v@.len() as int),
        FilterExpr::Not(b) => 1 + expr_height(*b),
        FilterExpr::Compare(_) => 0,
        FilterExpr::Vector(_) => 0,
    }
}

/// Maximum height among the first `n` expressions of a list.
pub open spec fn list_height(s: Seq<FilterExpr>, n: int) -> nat
    decreases s, n,
{
    if n <= 0 || n > s.len() {
        0
    } else if expr_height(s[n - 1]) + 1 > list_height(s, n - 1) {
        expr_height(s[n - 1]) + 1
    } else {
        list_height(s, n - 1)
    }
}

/// Every listed expression sits strictly below the list's height bound.
proof fn lemma_list_height(s: Seq<FilterExpr>, n: int, i: int)
    requires
        0 <= i < n <= s.len(),
    ensures
        expr_height(s[i]) < list_height(s, n),
    decreases n,
{
    if i == n - 1 {
    } else {
        lemma_list_height(s, n - 1, i);
    }
}

/// The label at a bookmaker position.
pub open spec fn doc_label(doc: FilterDoc, i: int) -> Seq<char> {
    doc.bookmakers@[i].0@
}

/// The document holds a bookmaker under the label.
pub open spec fn doc_has_book(doc: FilterDoc, label: Seq<char>) -> bool {
    exists|i: int| 0 <= i < doc.bookmakers@.len() && doc_label(doc, i) == label
}

/// Position of the bookmaker under the label.
pub open spec fn doc_book_index(doc: FilterDoc, label: Seq<char>) -> int {
    choose|i: int| 0 <= i < doc.bookmakers@.len() && doc_label(doc, i) == label
}

/// Unique bookmaker labels.
pub open spec fn doc_wf(doc: FilterDoc) -> bool {
    forall|i: int, j: int|
        0 <= i < j < doc.bookmakers@.len() ==> doc_label(doc, i) != doc_label(doc, j)
}

/// Position of the bookmaker under `label`, if the document has one.
fn find_doc_book(doc: &FilterDoc, label: &str) -> (r: Option<usize>)
    requires
        doc_wf(*doc),
    ensures
        match r {
            Some(i) => i < doc.bookmakers@.len() && doc_label(*doc, i as int) == label@
                && doc_has_book(*doc, label@) && doc_book_index(*doc, label@) == i,
            None => !doc_has_book(*doc, label@),
        },
{
    let n = doc.bookmakers.len();
    let mut i: usize = 0;
    while i < n
        invariant
            0 <= i <= n == doc.bookmakers@.len(),
            doc_wf(*doc),
            forall|k: int| 0 <= k < i ==> doc_label(*doc, k) != label@,
        decreases n - i,
    {
        if crate::strutil::str_eq(doc.bookmakers[i].0.as_str(), label) {
            proof {
                assert(doc_has_book(*doc, label@)) by {
                    assert(doc_label(*doc, i as int) == label@);
                }
                let j = doc_book_index(*doc, label@);
                if j < i as int {
                    assert(doc_label(*doc, j) != doc_label(*doc, i as int));
                } else if (i as int) < j {
                    assert(doc_label(*doc, i as int) != doc_label(*doc, j));
                }
            }
            return Some(i);
        }
        i = i + 1;
    }
    None
}

/// The expansion of one odds vector against its line set: one `(value,
/// line)` pair per position whose odds value is non-zero, zero values
/// filtered out.  A position past the line set falls back to its index as
/// the line label (in thousandths, an index `k` reads as the line `k`).
pub open spec fn spec_expand(lines: Seq<i64>, odds: Seq<i32>, n: int) -> Seq<(Q, Option<i64>)>
    decreases n,
{
    if n <= 0 || n > odds.len() {
        Seq::empty()
    } else {
        let rest = spec_expand(lines, odds, n - 1);
        let v = odds[n - 1];
        if v == 0 {
            rest
        } else {
            let line = if n - 1 < lines.len() {
                Some(lines[n - 1])
            } else {
                Some((1000 * (n - 1)) as i64)
            };
            rest.push((spec_q_int(v as i64), line))
        }
    }
}

/// Expands one odds vector with its line labels, skipping zero positions.
fn expand_vector(lines: &Vec<i64>, odds: &Vec<i32>, book: usize, field: PathField) -> (r: Vec<
    (Q, Tag),
>)
    ensures
        r@.len() == spec_expand(lines@, odds@, odds@.len() as int).len(),
        forall|k: int|
            0 <= k < r@.len() ==> #[trigger] r@[k] == (spec_expand(
                lines@,
                odds@,
                odds@.len() as int,
            )[k].0, Tag {
                book: Some(book),
                field: field,
                line: spec_expand(lines@, odds@, odds@.len() as int)[k].1,
            }) && q_wf(r@[k].0),
{
    let mut r: Vec<(Q, Tag)> = Vec::new();
    let n = odds.len();
    let mut i: usize = 0;
    while i < n
        invariant
            0 <= i <= n == odds@.len(),
            r@.len() == spec_expand(lines@, odds@, i as int).len(),
            forall|k: int|
                0 <= k < r@.len() ==> #[trigger] r@[k] == (spec_expand(lines@, odds@, i as int)[k].0, Tag {
                    book: Some(book),
                    field: field,
                    line: spec_expand(lines@, odds@, i as int)[k].1,
                }) && q_wf(r@[k].0),
        decreases n - i,
    {
        let v = odds[i];
        if v != 0 {
            let line = if i < lines.len() {
                Some(lines[i])
            } else {
                Some(#[verifier::truncate] ((i as i128 * 1000) as i64))
            };
            let q = Q { num: v as i64, den: 1 };
            r.push((q, Tag { book: Some(book), field, line }));
        }
        i = i + 1;
    }
    r
}

/// The scalar value of a three-way or timestamp field of a snapshot.
pub open spec fn spec_scalar_field(s: BookmakerSnapshot, f: PathField) -> Option<i64> {
    match f {
        PathField::X12H => match s.x12_h {
            Some(v) => Some(v as i64),
            None => None,
        },
        PathField::X12X => match s.x12_x {
            Some(v) => Some(v as i64),
            None => None,
        },
        PathField::X12A => match s.x12_a {
            Some(v) => Some(v as i64),
            None => None,
        },
        PathField::FairX12H => match s.fair_x12_h {
            Some(v) => Some(v as i64),
            None => None,
        },
        PathField::FairX12X => match s.fair_x12_x {
            Some(v) => Some(v as i64),
            None => None,
        },
        PathField::FairX12A => match s.fair_x12_a {
            Some(v) => Some(v as i64),
            None => None,
        },
        PathField::Timestamp => Some(s.timestamp),
        _ => None,
    }
}

/// Whether a field is one of the six three-way scalars or the timestamp.
pub open spec fn spec_is_scalar(f: PathField) -> bool {
    f == PathField::X12H || f == PathField::X12X || f == PathField::X12A || f == PathField::FairX12H
        || f == PathField::FairX12X || f == PathField::FairX12A || f == PathField::Timestamp
}

/// Reads the scalar field of a snapshot.
fn scalar_field(s: &BookmakerSnapshot, f: PathField) -> (r: Option<i64>)
    ensures
        r == spec_scalar_field(*s, f),
{
    match f {
        PathField::X12H => match s.x12_h {
            Some(v) => Some(v as i64),
            None => None,
        },
        PathField::X12X => match s.x12_x {
            Some(v) => Some(v as i64),
            None => None,
        },
        PathField::X12A => match s.x12_a {
            Some(v) => Some(v as i64),
            None => None,
        },
        PathField::FairX12H => match s.fair_x12_h {
            Some(v) => Some(v as i64),
            None => None,
        },
        PathField::FairX12X => match s.fair_x12_x {
            Some(v) => Some(v as i64),
            None => None,
        },
        PathField::FairX12A => match s.fair_x12_a {
            Some(v) => Some(v as i64),
            None => None,
        },
        PathField::Timestamp => Some(s.timestamp),
        _ => None,
    }
}

/// The line set a vector field aligns with.
pub open spec fn spec_field_lines(s: BookmakerSnapshot, f: PathField) -> Seq<i64> {
    match f {
        PathField::AhH | PathField::AhA | PathField::FairAhH | PathField::FairAhA => s.ah_lines@,
        _ => s.ou_lines@,
    }
}

/// The odds vector a field names.
pub open spec fn spec_field_odds(s: BookmakerSnapshot, f: PathField) -> Seq<i32> {
    match f {
        PathField::AhH => s.ah_h@,
        PathField::AhA => s.ah_a@,
        PathField::FairAhH => s.fair_ah_h@,
        PathField::FairAhA => s.fair_ah_a@,
        PathField::OuO => s.ou_o@,
        PathField::OuU => s.ou_u@,
        PathField::FairOuO => s.fair_ou_o@,
        PathField::FairOuU => s.fair_ou_u@,
        _ => Seq::empty(),
    }
}

/// Whether a field names one side of a handicap or totals market.
pub open spec fn spec_is_vector(f: PathField) -> bool {
    f == PathField::AhH || f == PathField::AhA || f == PathField::OuO || f == PathField::OuU || f
        == PathField::FairAhH || f == PathField::FairAhA || f == PathField::FairOuO || f
        == PathField::FairOuU
}

/// Borrowed line set and odds vector of a field.
fn field_vectors<'a>(s: &'a BookmakerSnapshot, f: PathField) -> (r: (&'a Vec<i64>, &'a Vec<i32>))
    requires
        spec_is_vector(f),
    ensures
        r.0@ == spec_field_lines(*s, f),
        r.1@ == spec_field_odds(*s, f),
{
    match f {
        PathField::AhH => (&s.ah_lines, &s.ah_h),
        PathField::AhA => (&s.ah_lines, &s.ah_a),
        PathField::FairAhH => (&s.ah_lines, &s.fair_ah_h),
        PathField::FairAhA => (&s.ah_lines, &s.fair_ah_a),
        PathField::OuO => (&s.ou_lines, &s.ou_o),
        PathField::OuU => (&s.ou_lines, &s.ou_u),
        PathField::FairOuO => (&s.ou_lines, &s.fair_ou_o),
        PathField::FairOuU => (&s.ou_lines, &s.fair_ou_u),
        _ => (&s.ou_lines, &s.ou_u),
    }
}

/// First position carrying `line`, or the length when absent: lines are
/// thousandth counts, so the tolerance of one thousandth is exact equality.
pub open spec fn spec_line_pos(lines: Seq<i64>, line: i64) -> int
    decreases lines.len(),
{
    if lines.len() == 0 {
        0
    } else if lines[0] == line {
        0
    } else {
        1 + spec_line_pos(lines.drop_first(), line)
    }
}

/// First position of `line` in a line set, if present.
pub open spec fn spec_line_index(lines: Seq<i64>, line: i64) -> Option<int> {
    if spec_line_pos(lines, line) < lines.len() {
        Some(spec_line_pos(lines, line))
    } else {
        None
    }
}

/// The scan position of the first occurrence matches `spec_line_pos`.
proof fn lemma_line_pos(lines: Seq<i64>, line: i64, i: int)
    requires
        0 <= i <= lines.len(),
        forall|k: int| 0 <= k < i ==> lines[k] != line,
        i < lines.len() ==> lines[i] == line,
    ensures
        spec_line_pos(lines, line) == i,
    decreases lines.len(),
{
    if lines.len() > 0 {
        if i == 0 {
        } else {
            let t = lines.drop_first();
            assert(forall|k: int| 0 <= k < i - 1 ==> t[k] == lines[k + 1] && t[k] != line);
            assert(i - 1 < t.len() ==> t[i - 1] == lines[i]);
            lemma_line_pos(t, line, i - 1);
        }
    }
}

/// First position of `line` in a line set.
fn line_index(lines: &Vec<i64>, line: i64) -> (r: Option<usize>)
    ensures
        match r {
            Some(k) => spec_line_index(lines@, line) == Some(k as int) && k < lines@.len()
                && lines@[k as int] == line,
            None => spec_line_index(lines@, line) is None,
        },
{
    let n = lines.len();
    let mut i: usize = 0;
    while i < n
        invariant
            0 <= i <= n == lines@.len(),
            forall|k: int| 0 <= k < i ==> lines@[k] != line,
        decreases n - i,
    {
        if lines[i] == line {
            proof {
                lemma_line_pos(lines@, line, i as int);
            }
            return Some(i);
        }
        i = i + 1;
    }
    proof {
        lemma_line_pos(lines@, line, n as int);
    }
    None
}

/// Two lines pair exactly when their thousandth counts agree: carried at a
/// scale of one thousandth, a real-valued difference below `10^-3` is a
/// difference of zero counts, and one of `10^-3` or more is a non-zero
/// count.
pub proof fn lemma_line_pairing(a: i64, b: i64)
    ensures
        (a == b) <==> -1 < a - b < 1,
        (a != b) ==> a - b >= 1 || a - b <= -1,
{
}


/// The concatenated expansion of an aggregate field: both sides of every
/// line for handicap and totals aggregates, the three scalars for the
/// three-way aggregate.
pub open spec fn spec_agg_fields(f: PathField) -> Seq<PathField> {
    match f {
        PathField::AggAh => seq![PathField::AhH, PathField::AhA],
        PathField::AggOu => seq![PathField::OuO, PathField::OuU],
        PathField::AggFairAh => seq![PathField::FairAhH, PathField::FairAhA],
        PathField::AggFairOu => seq![PathField::FairOuO, PathField::FairOuU],
        PathField::AggX12 => seq![PathField::X12H, PathField::X12X, PathField::X12A],
        PathField::AggFairX12 => seq![
            PathField::FairX12H,
            PathField::FairX12X,
            PathField::FairX12A,
        ],
        _ => seq![f],
    }
}

/// Whether a field is an aggregate shortcut.
pub open spec fn spec_is_agg(f: PathField) -> bool {
    f == PathField::AggAh || f == PathField::AggOu || f == PathField::AggFairAh || f
        == PathField::AggFairOu || f == PathField::AggX12 || f == PathField::AggFairX12
}

/// The component fields of an aggregate.
fn agg_fields(f: PathField) -> (r: Vec<PathField>)
    ensures
        r@ == spec_agg_fields(f),
{
    let mut v: Vec<PathField> = Vec::new();
    match f {
        PathField::AggAh => {
            v.push(PathField::AhH);
            v.push(PathField::AhA);
            proof {
                assert(v@ =~= spec_agg_fields(f));
            }
        },
        PathField::AggOu => {
            v.push(PathField::OuO);
            v.push(PathField::OuU);
            proof {
                assert(v@ =~= spec_agg_fields(f));
            }
        },
        PathField::AggFairAh => {
            v.push(PathField::FairAhH);
            v.push(PathField::FairAhA);
            proof {
                assert(v@ =~= spec_agg_fields(f));
            }
        },
        PathField::AggFairOu => {
            v.push(PathField::FairOuO);
            v.push(PathField::FairOuU);
            proof {
                assert(v@ =~= spec_agg_fields(f));
            }
        },
        PathField::AggX12 => {
            v.push(PathField::X12H);
            v.push(PathField::X12X);
            v.push(PathField::X12A);
            proof {
                assert(v@ =~= spec_agg_fields(f));
            }
        },
        PathField::AggFairX12 => {
            v.push(PathField::FairX12H);
            v.push(PathField::FairX12X);
            v.push(PathField::FairX12A);
            proof {
                assert(v@ =~= spec_agg_fields(f));
            }
        },
        _ => {
            v.push(f);
            proof {
                assert(v@ =~= spec_agg_fields(f));
            }
        },
    }
    v
}

/// The evaluation context of one top-level run: bound variables and the
/// match traces collected so far.
pub struct EvalCtx {
    pub vars: Vec<(String, Resolved)>,
    pub traces: Vec<MatchTrace>,
}

/// One recorded match: the comparison that held, its operands and, for
/// arithmetic results, the calculation behind the left value.
#[derive(Debug, Clone, Copy, PartialEq, Eq, Structural)]
pub struct MatchTrace {
    pub op: CompareOp,
    pub threshold: Option<Q>,
    pub result: Q,
    pub left_value: Q,
    pub left_tag: Tag,
    pub right_value: Option<Q>,
    pub right_tag: Option<Tag>,
    pub calc: Option<ArithOp>,
}

/// Resolves one direct field of one bookmaker's snapshot (no aggregate):
/// a scalar becomes a single untagged-line value, a line-addressed vector
/// field the value at its line, a plain vector field its zero-filtered
/// expansion.
fn resolve_snapshot_field(
    snap: &BookmakerSnapshot,
    book: usize,
    field: PathField,
    line: Option<i64>,
) -> (r: Option<Resolved>)
    ensures
        match r {
            Some(v) => v@.len() > 0 && forall|k: int| 0 <= k < v@.len() ==> q_wf(#[trigger] v@[k].0),
            None => true,
        },
        (match (r, spec_resolve_snap_full(*snap, book as int, field, line)) {
            (Some(v), Some(w)) => v@ == w,
            (None, None) => true,
            _ => false,
        }),
        (spec_is_scalar(field) && line is None) ==> (match spec_scalar_field(*snap, field) {
            Some(sv) => if -crate::rational::Q_BOUND <= sv <= crate::rational::Q_BOUND {
                r matches Some(v) && v@.len() == 1 && v@[0] == (spec_q_int(sv), Tag {
                    book: Some(book),
                    field: field,
                    line: None,
                })
            } else {
                r is None
            },
            None => r is None,
        }),
        (spec_is_vector(field) && line is Some) ==> {
            let l = line.unwrap();
            let s = *snap;
            match spec_line_index(spec_field_lines(s, field), l) {
                Some(k) => if k < spec_field_odds(s, field).len() {
                    r matches Some(v) && v@.len() == 1 && v@[0] == (spec_q_int(
                        spec_field_odds(s, field)[k] as i64,
                    ), Tag { book: Some(book), field: field, line: Some(l) })
                } else {
                    r is None
                },
                None => r is None,
            }
        },
        (spec_is_vector(field) && line is None) ==> {
            let s = *snap;
            let ex = spec_expand(
                spec_field_lines(s, field),
                spec_field_odds(s, field),
                spec_field_odds(s, field).len() as int,
            );
            if ex.len() == 0 {
                r is None
            } else {
                r matches Some(v) && v@.len() == ex.len() && forall|k: int|
                    0 <= k < ex.len() ==> #[trigger] v@[k] == (ex[k].0, Tag {
                        book: Some(book),
                        field: field,
                        line: ex[k].1,
                    })
            }
        },
{
    match field {
        PathField::X12H | PathField::X12X | PathField::X12A | PathField::FairX12H
            | PathField::FairX12X | PathField::FairX12A | PathField::Timestamp => {
            if line.is_some() {
                return None;
            }
            match scalar_field(snap, field) {
                Some(sv) => {
                    match Q::from_int(sv) {
                        Some(q) => {
                            let mut v: Vec<(Q, Tag)> = Vec::new();
                            v.push((q, Tag { book: Some(book), field, line: None }));
                            Some(v)
                        },
                        None => None,
                    }
                },
                None => None,
            }
        },
        PathField::AhH | PathField::AhA | PathField::OuO | PathField::OuU | PathField::FairAhH
            | PathField::FairAhA | PathField::FairOuO | PathField::FairOuU => {
            let (lines, odds) = field_vectors(snap, field);
            match line {
                Some(l) => {
                    match line_index(lines, l) {
                        Some(k) => {
                            if k < odds.len() {
                                let q = Q { num: odds[k] as i64, den: 1 };
                                let mut v: Vec<(Q, Tag)> = Vec::new();
                                v.push((q, Tag { book: Some(book), field, line: Some(l) }));
                                Some(v)
                            } else {
                                None
                            }
                        },
                        None => None,
                    }
                },
                None => {
                    let v = expand_vector(lines, odds, book, field);
                    if v.len() == 0 {
                        None
                    } else {
                        Some(v)
                    }
                },
            }
        },
        _ => None,
    }
}

/// What one direct field of a snapshot resolves to: a present,
/// representable scalar is a single value; a line-addressed vector field
/// the value at its line; a plain vector field its zero-filtered
/// expansion; anything else nothing.
pub open spec fn spec_resolve_snap_full(
    s: BookmakerSnapshot,
    book: int,
    f: PathField,
    line: Option<i64>,
) -> Option<Seq<(Q, Tag)>> {
    if spec_is_scalar(f) {
        if line is Some {
            None
        } else {
            let w = spec_resolve_snap(s, book, f);
            if w.len() == 0 {
                None
            } else {
                Some(w)
            }
        }
    } else if spec_is_vector(f) {
        match line {
            Some(l) => match spec_line_index(spec_field_lines(s, f), l) {
                Some(k) => if k < spec_field_odds(s, f).len() {
                    Some(
                        seq![
                            (
                                spec_q_int(spec_field_odds(s, f)[k] as i64),
                                Tag { book: Some(book as usize), field: f, line: Some(l) },
                            ),
                        ],
                    )
                } else {
                    None
                },
                None => None,
            },
            None => {
                let w = spec_resolve_snap(s, book, f);
                if w.len() == 0 {
                    None
                } else {
                    Some(w)
                }
            },
        }
    } else {
        None
    }
}

/// What one direct field of a snapshot resolves to, as a sequence: a
/// present, representable scalar is a single untagged-line value; a vector
/// field is its zero-filtered expansion; anything else is empty.
pub open spec fn spec_resolve_snap(s: BookmakerSnapshot, book: int, f: PathField) -> Seq<
    (Q, Tag),
> {
    if spec_is_scalar(f) {
        match spec_scalar_field(s, f) {
            Some(sv) => if -crate::rational::Q_BOUND <= sv <= crate::rational::Q_BOUND {
                seq![
                    (spec_q_int(sv), Tag { book: Some(book as usize), field: f, line: None }),
                ]
            } else {
                Seq::empty()
            },
            None => Seq::empty(),
        }
    } else if spec_is_vector(f) {
        let ex = spec_expand(
            spec_field_lines(s, f),
            spec_field_odds(s, f),
            spec_field_odds(s, f).len() as int,
        );
        Seq::new(
            ex.len(),
            |k: int|
                (ex[k].0, Tag { book: Some(book as usize), field: f, line: ex[k].1 }),
        )
    } else {
        Seq::empty()
    }
}

/// What an aggregate field resolves to: the concatenation of its first `n`
/// component fields' resolutions.
pub open spec fn spec_resolve_agg(
    s: BookmakerSnapshot,
    book: int,
    parts: Seq<PathField>,
    n: int,
) -> Seq<(Q, Tag)>
    decreases n,
{
    if n <= 0 || n > parts.len() {
        Seq::empty()
    } else {
        spec_resolve_agg(s, book, parts, n - 1) + spec_resolve_snap(s, book, parts[n - 1])
    }
}

/// Resolves a field path against the document and variable store: an
/// aggregate concatenates its component fields' expansions.
fn resolve_field(doc: &FilterDoc, path: &FieldPath, ctx: &EvalCtx) -> (r: Option<Resolved>)
    requires
        doc_wf(*doc),
    ensures
        match r {
            Some(v) => forall|k: int| 0 <= k < v@.len() ==> q_wf(#[trigger] v@[k].0),
            None => true,
        },
        (match (r, spec_resolve_field(*doc, *path, ctx_vars_view(*ctx))) {
            (Some(v), Some(w)) => v@ == w,
            (None, None) => true,
            _ => false,
        }),
    decreases comp_height_path(*path), 0nat,
{
    match path {
        FieldPath::Var(name) => {
            let ghost vv = ctx_vars_view(*ctx);
            let n = ctx.vars.len();
            let mut i: usize = 0;
            while i < n
                invariant
                    0 <= i <= n == ctx.vars@.len(),
                    *path == FieldPath::Var(*name),
                    vv == ctx_vars_view(*ctx),
                    vv.len() == n,
                    forall|k: int| 0 <= k < i ==> (#[trigger] vv[k]).0@ != name@,
                decreases n - i,
            {
                proof {
                    assert(vv[i as int] == (ctx.vars@[i as int].0, ctx.vars@[i as int].1@));
                }
                if crate::strutil::str_eq(ctx.vars[i].0.as_str(), name.as_str()) {
                    proof {
                        lemma_var_pos(vv, name@, i as int);
                    }
                    if ctx_vars_ok(ctx, i) {
                        return Some(clone_resolved(&ctx.vars[i].1));
                    } else {
                        return None;
                    }
                }
                i = i + 1;
            }
            proof {
                lemma_var_pos(vv, name@, n as int);
            }
            None
        },
        FieldPath::Simple { bookmaker, field, line } => {
            match find_doc_book(doc, bookmaker.as_str()) {
                Some(b) => {
                    let f = *field;
                    if is_agg(f) {
                        let parts = agg_fields(f);
                        let ghost snap = doc.bookmakers@[b as int].1.current;
                        let mut out: Vec<(Q, Tag)> = Vec::new();
                        let m = parts.len();
                        let mut j: usize = 0;
                        while j < m
                            invariant
                                0 <= j <= m == parts@.len(),
                                doc_wf(*doc),
                                b < doc.bookmakers@.len(),
                                snap == doc.bookmakers@[b as int].1.current,
                                spec_is_agg(f),
                                parts@ == spec_agg_fields(f),
                                out@ == spec_resolve_agg(snap, b as int, parts@, j as int),
                                forall|k: int|
                                    0 <= k < out@.len() ==> q_wf(#[trigger] out@[k].0),
                            decreases m - j,
                        {
                            let part = parts[j];
                            proof {
                                lemma_agg_part_kind(f, parts@, j as int);
                            }
                            match resolve_snapshot_field(
                                &doc.bookmakers[b].1.current,
                                b,
                                part,
                                None,
                            ) {
                                Some(mut v) => {
                                    proof {
                                        assert(v@ =~= spec_resolve_snap(snap, b as int, part));
                                    }
                                    append_resolved(&mut out, &mut v);
                                },
                                None => {
                                    proof {
                                        assert(spec_resolve_snap(snap, b as int, part) =~= Seq::<
                                            (Q, Tag),
                                        >::empty());
                                    }
                                },
                            }
                            proof {
                                assert(out@ =~= spec_resolve_agg(
                                    snap,
                                    b as int,
                                    parts@,
                                    j as int + 1,
                                ));
                            }
                            j = j + 1;
                        }
                        if out.len() == 0 {
                            None
                        } else {
                            Some(out)
                        }
                    } else {
                        resolve_snapshot_field(&doc.bookmakers[b].1.current, b, f, *line)
                    }
                },
                None => None,
            }
        },
        FieldPath::Computed(c) => {
            match arith_eval(doc, c, ctx) {
                Some(v) => Some(v.0),
                None => None,
            }
        },
    }
}

/// Checks that one binding's values are well-formed.
fn ctx_vars_ok(ctx: &EvalCtx, i: usize) -> (r: bool)
    requires
        i < ctx.vars@.len(),
    ensures
        r == forall|t: int|
            0 <= t < ctx.vars@[i as int].1@.len() ==> q_wf(#[trigger] ctx.vars@[i as int].1@[t].0),
{
    let v = &ctx.vars[i].1;
    let n = v.len();
    let mut t: usize = 0;
    while t < n
        invariant
            0 <= t <= n == ctx.vars@[i as int].1@.len(),
            i < ctx.vars@.len(),
            forall|k: int| 0 <= k < t ==> q_wf(#[trigger] ctx.vars@[i as int].1@[k].0),
        decreases n - t,
    {
        let q = ctx.vars[i].1[t].0;
        if !(0 < q.den && q.den <= crate::rational::Q_BOUND && -crate::rational::Q_BOUND <= q.num
            && q.num <= crate::rational::Q_BOUND) {
            return false;
        }
        t = t + 1;
    }
    true
}

/// Copies a resolved value sequence.
fn clone_resolved(v: &Resolved) -> (r: Resolved)
    ensures
        r@ == v@,
{
    let mut r: Resolved = Vec::new();
    let n = v.len();
    let mut i: usize = 0;
    while i < n
        invariant
            0 <= i <= n == v@.len(),
            r@ =~= v@.take(i as int),
        decreases n - i,
    {
        r.push(v[i]);
        proof {
            assert(r@ =~= v@.take(i as int + 1));
        }
        i = i + 1;
    }
    proof {
        assert(v@.take(n as int) =~= v@);
    }
    r
}

/// Moves every element of `src` onto the end of `dst`.
fn append_resolved(dst: &mut Resolved, src: &mut Resolved)
    ensures
        final(dst)@ == old(dst)@ + old(src)@,
{
    let n = src.len();
    let ghost d0 = dst@;
    let ghost s0 = src@;
    let mut i: usize = 0;
    while i < n
        invariant
            0 <= i <= n == s0.len(),
            src@ == s0,
            dst@ =~= d0 + s0.take(i as int),
        decreases n - i,
    {
        dst.push(src[i]);
        proof {
            assert(dst@ =~= d0 + s0.take(i as int + 1));
        }
        i = i + 1;
    }
    proof {
        assert(d0 + s0.take(n as int) =~= d0 + s0);
    }
}

/// Whether a field is an aggregate shortcut.
fn is_agg(f: PathField) -> (r: bool)
    ensures
        r == spec_is_agg(f),
{
    match f {
        PathField::AggAh | PathField::AggOu | PathField::AggFairAh | PathField::AggFairOu
            | PathField::AggX12 | PathField::AggFairX12 => true,
        _ => false,
    }
}

/// Every component of an aggregate is a scalar or a vector field.
proof fn lemma_agg_part_kind(f: PathField, parts: Seq<PathField>, j: int)
    requires
        spec_is_agg(f),
        parts == spec_agg_fields(f),
        0 <= j < parts.len(),
    ensures
        spec_is_scalar(parts[j]) || spec_is_vector(parts[j]),
        parts[j] != PathField::Timestamp,
{
}


/// The scan position of the first binding equals `spec_var_pos`.
proof fn lemma_var_pos(vars: Seq<(String, Seq<(Q, Tag)>)>, name: Seq<char>, i: int)
    requires
        0 <= i <= vars.len(),
        forall|k: int| 0 <= k < i ==> (#[trigger] vars[k]).0@ != name,
        i < vars.len() ==> vars[i].0@ == name,
    ensures
        spec_var_pos(vars, name) == i,
    decreases vars.len(),
{
    if vars.len() > 0 {
        if i == 0 {
        } else {
            let t = vars.drop_first();
            assert(forall|k: int| 0 <= k < i - 1 ==> t[k] == vars[k + 1]);
            assert(i - 1 < t.len() ==> t[i - 1] == vars[i]);
            lemma_var_pos(t, name, i - 1);
        }
    }
}

/// The variable view of a context: names with their bound value
/// sequences.
pub open spec fn ctx_vars_view(ctx: EvalCtx) -> Seq<(String, Seq<(Q, Tag)>)> {
    ctx.vars@.map_values(|p: (String, Resolved)| (p.0, p.1@))
}

/// First position bound under `name`, or the length.
pub open spec fn spec_var_pos(vars: Seq<(String, Seq<(Q, Tag)>)>, name: Seq<char>) -> int
    decreases vars.len(),
{
    if vars.len() == 0 {
        0
    } else if vars[0].0@ == name {
        0
    } else {
        1 + spec_var_pos(vars.drop_first(), name)
    }
}

/// What a variable resolves to: the first binding under the name, provided
/// all its values are well-formed.
pub open spec fn spec_var_resolve(
    vars: Seq<(String, Seq<(Q, Tag)>)>,
    name: Seq<char>,
) -> Option<Seq<(Q, Tag)>> {
    let p = spec_var_pos(vars, name);
    if p < vars.len() {
        if forall|t: int| 0 <= t < vars[p].1.len() ==> q_wf((#[trigger] vars[p].1[t]).0) {
            Some(vars[p].1)
        } else {
            None
        }
    } else {
        None
    }
}

/// Two direct paths pair semantically: both matchable fields without a
/// line address.
pub open spec fn spec_semantic_match(l: FieldPath, r: FieldPath) -> bool {
    &&& (match l {
        FieldPath::Simple { bookmaker: _, field, line } => spec_is_matchable_field(field)
            && line is None,
        _ => false,
    })
    &&& (match r {
        FieldPath::Simple { bookmaker: _, field, line } => spec_is_matchable_field(field)
            && line is None,
        _ => false,
    })
}

/// The well-formed entries of a literal list, in order.
pub open spec fn spec_lit_list(qs: Seq<Q>, n: int) -> Seq<(Q, Tag)>
    decreases n,
{
    if n <= 0 || n > qs.len() {
        Seq::empty()
    } else {
        let rest = spec_lit_list(qs, n - 1);
        if q_wf(qs[n - 1]) {
            rest.push((qs[n - 1], Tag { book: None, field: PathField::Literal, line: None }))
        } else {
            rest
        }
    }
}

/// The entries surviving the valid-odds filter, scalars passing through.
pub open spec fn spec_filter_valid_unless_scalar(v: Seq<(Q, Tag)>, n: int) -> Seq<(Q, Tag)>
    decreases n,
{
    if n <= 0 || n > v.len() {
        Seq::empty()
    } else {
        let rest = spec_filter_valid_unless_scalar(v, n - 1);
        let keep = match v[n - 1].1.line {
            Some(_) => spec_valid_odds(v[n - 1].0),
            None => true,
        };
        if keep {
            rest.push(v[n - 1])
        } else {
            rest
        }
    }
}

/// Some entry carries a line.
pub open spec fn spec_has_lines(v: Seq<(Q, Tag)>) -> bool {
    exists|k: int| 0 <= k < v.len() && (#[trigger] v[k]).1.line is Some
}

/// The values a detail list yields, each with its left provenance.
pub open spec fn spec_details_values(d: Seq<ArithDetail>) -> Seq<(Q, Tag)> {
    Seq::new(d.len(), |k: int| (d[k].result, d[k].left_tag))
}

/// The floor of a rational, as millisecond ages are read.
pub open spec fn spec_q_floor(q: Q) -> int {
    q.num as int / q.den as int
}

/// Every timestamp of a bookmaker entry within the sane millisecond range.
pub open spec fn spec_entry_sane(b: BookmakerOdds) -> bool {
    &&& (forall|k: int|
        0 <= k < b.history@.len() ==> -1_000_000_000_000_000 <= (#[trigger] b.history@[k]).timestamp
            <= 1_000_000_000_000_000)
    &&& -1_000_000_000_000_000 <= b.current.timestamp <= 1_000_000_000_000_000
}

/// The oldest in-window history snapshot among the first `n`, scanning
/// from the oldest end: the highest index whose age is within the window.
pub open spec fn spec_hist_pick(
    hist: Seq<BookmakerSnapshot>,
    cur: i64,
    age: int,
    n: int,
) -> Option<int>
    decreases n,
{
    if n <= 0 || n > hist.len() {
        None
    } else if cur - hist[n - 1].timestamp <= age {
        Some(n - 1)
    } else {
        spec_hist_pick(hist, cur, age, n - 1)
    }
}

/// What a field path resolves to: a variable binding, a direct document
/// field (aggregates concatenating their components), or a computation.
pub open spec fn spec_resolve_field(
    doc: FilterDoc,
    path: FieldPath,
    vars: Seq<(String, Seq<(Q, Tag)>)>,
) -> Option<Seq<(Q, Tag)>>
    decreases comp_height_path(path), 0nat,
{
    match path {
        FieldPath::Var(name) => spec_var_resolve(vars, name@),
        FieldPath::Simple { bookmaker, field, line } => {
            if !doc_has_book(doc, bookmaker@) {
                None
            } else {
                let b = doc_book_index(doc, bookmaker@);
                let snap = doc.bookmakers@[b].1.current;
                if spec_is_agg(field) {
                    let all = spec_resolve_agg(
                        snap,
                        b,
                        spec_agg_fields(field),
                        spec_agg_fields(field).len() as int,
                    );
                    if all.len() == 0 {
                        None
                    } else {
                        Some(all)
                    }
                } else {
                    spec_resolve_snap_full(snap, b, field, line)
                }
            }
        },
        FieldPath::Computed(c) => match spec_arith_eval(doc, *c, vars) {
            Some(p) => Some(p.0),
            None => None,
        },
    }
}

/// What one operand resolves to.
pub open spec fn spec_resolve_voc(
    doc: FilterDoc,
    v: ValueOrComputed,
    vars: Seq<(String, Seq<(Q, Tag)>)>,
) -> Option<Seq<(Q, Tag)>>
    decreases voc_height(v), 0nat,
{
    match v {
        ValueOrComputed::Literal(q) => if q_wf(q) {
            Some(seq![(q, Tag { book: None, field: PathField::Literal, line: None })])
        } else {
            None
        },
        ValueOrComputed::LiteralList(qs) => {
            let w = spec_lit_list(qs@, qs@.len() as int);
            if w.len() == 0 {
                None
            } else {
                Some(w)
            }
        },
        ValueOrComputed::Field(p) => spec_resolve_field(doc, *p, vars),
        ValueOrComputed::Computed(c) => match spec_arith_eval(doc, *c, vars) {
            Some(p) => Some(p.0),
            None => None,
        },
    }
}

/// What one arithmetic node evaluates to: the history operator reads a
/// past snapshot; two direct matchable paths pair semantically by line
/// with the counterpart preference; anything else pairs by line when both
/// sides carry lines, position-wise at equal lengths, by broadcast against
/// a single value, or by field.
pub open spec fn spec_arith_eval(
    doc: FilterDoc,
    comp: ComputedValue,
    vars: Seq<(String, Seq<(Q, Tag)>)>,
) -> Option<(Seq<(Q, Tag)>, Seq<ArithDetail>)>
    decreases comp_height(comp), 1nat,
{
    if comp.op == ArithOp::History {
        spec_history_eval(doc, comp, vars)
    } else {
        let semantic = match (comp.left, comp.right) {
            (ValueOrComputed::Field(lp), ValueOrComputed::Field(rp)) => spec_semantic_match(
                *lp,
                *rp,
            ),
            _ => false,
        };
        match spec_resolve_voc(doc, comp.left, vars) {
            None => None,
            Some(left) => match spec_resolve_voc(doc, comp.right, vars) {
                None => None,
                Some(right) => {
                    let details = if semantic {
                        let lv = spec_filter_valid_unless_scalar(left, left.len() as int);
                        let rv = spec_filter_valid_unless_scalar(right, right.len() as int);
                        if spec_has_lines(lv) || spec_has_lines(rv) {
                            spec_pair_by_line(comp.op, lv, rv, lv.len() as int, true)
                        } else {
                            spec_pair_by_field(comp.op, lv, rv, lv.len() as int)
                        }
                    } else {
                        if spec_has_lines(left) && spec_has_lines(right) {
                            spec_pair_by_line(comp.op, left, right, left.len() as int, false)
                        } else if left.len() == right.len() {
                            spec_pair_positionwise(comp.op, left, right, left.len() as int)
                        } else if right.len() == 1 {
                            spec_pair_broadcast(comp.op, left, right, true, left.len() as int)
                        } else if left.len() == 1 {
                            spec_pair_broadcast(comp.op, left, right, false, right.len() as int)
                        } else {
                            spec_pair_by_field(comp.op, left, right, left.len() as int)
                        }
                    };
                    let values = spec_details_values(details);
                    if values.len() == 0 {
                        None
                    } else {
                        Some((values, details))
                    }
                },
            },
        }
    }
}

/// What the history operator evaluates to: the named field read from the
/// oldest in-window snapshot of the named bookmaker.
pub open spec fn spec_history_eval(
    doc: FilterDoc,
    comp: ComputedValue,
    vars: Seq<(String, Seq<(Q, Tag)>)>,
) -> Option<(Seq<(Q, Tag)>, Seq<ArithDetail>)>
    decreases comp_height(comp), 0nat,
{
    match comp.left {
        ValueOrComputed::Field(p) => match *p {
            FieldPath::Simple { bookmaker, field, line } => {
                match spec_resolve_voc(doc, comp.right, vars) {
                    None => None,
                    Some(v) => if v.len() == 0 {
                        None
                    } else {
                        let age = spec_q_floor(v[0].0);
                        if !doc_has_book(doc, bookmaker@) {
                            None
                        } else {
                            let b = doc_book_index(doc, bookmaker@);
                            let entry = doc.bookmakers@[b].1;
                            if !spec_entry_sane(entry) {
                                None
                            } else {
                                match spec_hist_pick(
                                    entry.history@,
                                    entry.current.timestamp,
                                    age,
                                    entry.history@.len() as int,
                                ) {
                                    None => None,
                                    Some(k) => {
                                        let snap = entry.history@[k];
                                        let out = if spec_is_agg(field) {
                                            spec_resolve_agg(
                                                snap,
                                                b,
                                                spec_agg_fields(field),
                                                spec_agg_fields(field).len() as int,
                                            )
                                        } else {
                                            match spec_resolve_snap_full(snap, b, field, line) {
                                                Some(w) => w,
                                                None => Seq::empty(),
                                            }
                                        };
                                        if out.len() == 0 {
                                            None
                                        } else {
                                            Some((out, Seq::empty()))
                                        }
                                    },
                                }
                            }
                        }
                    },
                }
            },
            _ => None,
        },
        _ => None,
    }
}

/// Height of a computed-value tree, the recursion measure of arithmetic
/// evaluation.
pub open spec fn comp_height(c: ComputedValue) -> nat
    decreases c,
{
    1 + voc_height(c.left) + voc_height(c.right)
}

/// Height of an operand.
pub open spec fn voc_height(v: ValueOrComputed) -> nat
    decreases v,
{
    match v {
        ValueOrComputed::Computed(c) => 1 + comp_height(*c),
        ValueOrComputed::Field(p) => 1 + comp_height_path(*p),
        _ => 0,
    }
}

/// Height of a field path.
pub open spec fn comp_height_path(p: FieldPath) -> nat
    decreases p,
{
    match p {
        FieldPath::Computed(c) => 1 + comp_height(*c),
        _ => 0,
    }
}

} // verus!
verus! {

/// One recorded arithmetic step: operands, result, operation.
#[derive(Debug, Clone, Copy, PartialEq, Eq, Structural)]
pub struct ArithDetail {
    pub left_value: Q,
    pub left_tag: Tag,
    pub right_value: Q,
    pub right_tag: Tag,
    pub result: Q,
    pub op: ArithOp,
}

/// One exact arithmetic step; absent on division by zero or a value that
/// leaves the representable range.
pub open spec fn spec_perform_op(op: ArithOp, l: Q, r: Q) -> Option<Q> {
    match op {
        ArithOp::Add => spec_op_add(l, r),
        ArithOp::Subtract => spec_op_sub(l, r),
        ArithOp::Multiply => spec_op_mul(l, r),
        ArithOp::Divide => spec_op_div(l, r),
        ArithOp::History => None,
    }
}

/// The exact sum within bounds.
pub open spec fn spec_op_add(l: Q, r: Q) -> Option<Q> {
    let n = l.num * r.den + r.num * l.den;
    let d = l.den * r.den;
    if -crate::rational::Q_BOUND <= n <= crate::rational::Q_BOUND && d
        <= crate::rational::Q_BOUND {
        Some(Q { num: n as i64, den: d as i64 })
    } else {
        None
    }
}

/// The exact difference within bounds.
pub open spec fn spec_op_sub(l: Q, r: Q) -> Option<Q> {
    let n = l.num * r.den - r.num * l.den;
    let d = l.den * r.den;
    if -crate::rational::Q_BOUND <= n <= crate::rational::Q_BOUND && d
        <= crate::rational::Q_BOUND {
        Some(Q { num: n as i64, den: d as i64 })
    } else {
        None
    }
}

/// The exact product within bounds.
pub open spec fn spec_op_mul(l: Q, r: Q) -> Option<Q> {
    let n = l.num * r.num;
    let d = l.den * r.den;
    if -crate::rational::Q_BOUND <= n <= crate::rational::Q_BOUND && d
        <= crate::rational::Q_BOUND {
        Some(Q { num: n as i64, den: d as i64 })
    } else {
        None
    }
}

/// The exact quotient within bounds; division by zero is absent.
pub open spec fn spec_op_div(l: Q, r: Q) -> Option<Q> {
    if r.num == 0 {
        None
    } else {
        let n = if r.num > 0 {
            l.num * r.den
        } else {
            -(l.num * r.den)
        };
        let d = if r.num > 0 {
            l.den * r.num
        } else {
            -(l.den * r.num)
        };
        if -crate::rational::Q_BOUND <= n <= crate::rational::Q_BOUND && d
            <= crate::rational::Q_BOUND {
            Some(Q { num: n as i64, den: d as i64 })
        } else {
            None
        }
    }
}

/// Performs one arithmetic step.
fn perform_op(op: ArithOp, l: Q, r: Q) -> (res: Option<Q>)
    requires
        q_wf(l),
        q_wf(r),
    ensures
        res == spec_perform_op(op, l, r),
        res matches Some(v) ==> q_wf(v),
{
    match op {
        ArithOp::Add => {
            let res = l.add(r);
            proof {
                match res {
                    Some(v) => {
                        assert(spec_op_add(l, r) == Some(v));
                    },
                    None => {
                        assert(spec_op_add(l, r) is None);
                    },
                }
            }
            res
        },
        ArithOp::Subtract => {
            let res = l.sub(r);
            proof {
                match res {
                    Some(v) => {
                        assert(spec_op_sub(l, r) == Some(v));
                    },
                    None => {
                        assert(spec_op_sub(l, r) is None);
                    },
                }
            }
            res
        },
        ArithOp::Multiply => {
            let res = l.mul(r);
            proof {
                match res {
                    Some(v) => {
                        assert(spec_op_mul(l, r) == Some(v));
                    },
                    None => {
                        assert(spec_op_mul(l, r) is None);
                    },
                }
            }
            res
        },
        ArithOp::Divide => {
            let res = l.div(r);
            proof {
                if r.num == 0 {
                    assert(spec_op_div(l, r) is None);
                } else {
                    assert((r.num > 0 ==> l.den * r.num > 0) && (r.num < 0 ==> l.den * r.num
                        < 0)) by (nonlinear_arith)
                        requires
                            l.den > 0,
                    ;
                    match res {
                        Some(v) => {
                            assert(spec_op_div(l, r) == Some(v));
                        },
                        None => {
                            assert(spec_op_div(l, r) is None);
                        },
                    }
                }
            }
            res
        },
        ArithOp::History => None,
    }
}

/// Pairs every left entry with the first right entry of the same line,
/// preferring an entry of the preferred field (the canonical counterpart
/// under semantic matching, the left entry's own field otherwise), and
/// applies the operation; line-less entries never pair here.
pub open spec fn spec_pair_by_line(
    op: ArithOp,
    left: Seq<(Q, Tag)>,
    right: Seq<(Q, Tag)>,
    n: int,
    counterpart: bool,
) -> Seq<ArithDetail>
    decreases n,
{
    if n <= 0 || n > left.len() {
        Seq::empty()
    } else {
        let rest = spec_pair_by_line(op, left, right, n - 1, counterpart);
        let l = left[n - 1];
        let pref = if counterpart {
            spec_counterpart(l.1.field)
        } else {
            l.1.field
        };
        match l.1.line {
            None => rest,
            Some(line) => match spec_right_match(right, line, pref) {
                None => rest,
                Some(j) => if 0 <= j < right.len() {
                    match spec_perform_op(op, l.0, right[j].0) {
                        None => rest,
                        Some(v) => rest.push(
                            ArithDetail {
                            left_value: l.0,
                            left_tag: l.1,
                            right_value: right[j].0,
                            right_tag: right[j].1,
                            result: v,
                            op: op,
                        },
                        ),
                    }
                } else {
                    rest
                },
            },
        }
    }
}

/// The right-hand entry a line pairs with: the first entry of the same
/// line and field, or, failing that, the first entry of the same line.
pub open spec fn spec_right_match(right: Seq<(Q, Tag)>, line: i64, field: PathField) -> Option<
    int,
> {
    if exists|j: int| 0 <= j < right.len() && right[j].1.line == Some(line) && right[j].1.field
        == field {
        Some(
            spec_first_line_field(right, line, Some(field), right.len() as int),
        )
    } else if exists|j: int| 0 <= j < right.len() && right[j].1.line == Some(line) {
        Some(spec_first_line_field(right, line, None, right.len() as int))
    } else {
        None
    }
}

/// First index below `n` carrying the line (and the field, when one is
/// required), or `n`.
pub open spec fn spec_first_line_field(
    right: Seq<(Q, Tag)>,
    line: i64,
    field: Option<PathField>,
    n: int,
) -> int
    decreases n,
{
    if n <= 0 || n > right.len() {
        0
    } else {
        let p = spec_first_line_field(right, line, field, n - 1);
        if p < n - 1 {
            p
        } else if right[n - 1].1.line == Some(line) && (field is None || Some(right[n - 1].1.field)
            == field) {
            n - 1
        } else {
            n
        }
    }
}

} // verus!
verus! {

/// The canonical counterpart of a matchable field: raw sides pair with
/// their fair counterparts and back; otherwise a field pairs with itself.
pub open spec fn spec_counterpart(f: PathField) -> PathField {
    match f {
        PathField::AhH => PathField::FairAhH,
        PathField::AhA => PathField::FairAhA,
        PathField::OuO => PathField::FairOuO,
        PathField::OuU => PathField::FairOuU,
        PathField::FairAhH => PathField::AhH,
        PathField::FairAhA => PathField::AhA,
        PathField::FairOuO => PathField::OuO,
        PathField::FairOuU => PathField::OuU,
        PathField::X12H => PathField::FairX12H,
        PathField::X12X => PathField::FairX12X,
        PathField::X12A => PathField::FairX12A,
        PathField::FairX12H => PathField::X12H,
        PathField::FairX12X => PathField::X12X,
        PathField::FairX12A => PathField::X12A,
        _ => f,
    }
}

/// The canonical counterpart, executable form.
pub fn find_matching_right_path(f: PathField) -> (r: PathField)
    ensures
        r == spec_counterpart(f),
{
    match f {
        PathField::AhH => PathField::FairAhH,
        PathField::AhA => PathField::FairAhA,
        PathField::OuO => PathField::FairOuO,
        PathField::OuU => PathField::FairOuU,
        PathField::FairAhH => PathField::AhH,
        PathField::FairAhA => PathField::AhA,
        PathField::FairOuO => PathField::OuO,
        PathField::FairOuU => PathField::OuU,
        PathField::X12H => PathField::FairX12H,
        PathField::X12X => PathField::FairX12X,
        PathField::X12A => PathField::FairX12A,
        PathField::FairX12H => PathField::X12H,
        PathField::FairX12X => PathField::X12X,
        PathField::FairX12A => PathField::X12A,
        _ => f,
    }
}

/// A field over which two direct paths pair semantically.
pub open spec fn spec_is_matchable_field(f: PathField) -> bool {
    spec_is_vector(f) || spec_is_agg(f) || (spec_is_scalar(f) && f != PathField::Timestamp)
}

/// Whether two direct paths use semantic line matching.
pub fn should_use_line_matching(left: &FieldPath, right: &FieldPath) -> (r: bool)
    ensures
        r == (left matches FieldPath::Simple { bookmaker: _, field: lf, line: ll }
            && spec_is_matchable_field(*lf) && ll is None && (
        right matches FieldPath::Simple { bookmaker: _, field: rf, line: rl }
            && spec_is_matchable_field(*rf) && rl is None)),
{
    let l_ok = match left {
        FieldPath::Simple { bookmaker: _, field, line } => is_matchable_field(*field)
            && line.is_none(),
        _ => false,
    };
    let r_ok = match right {
        FieldPath::Simple { bookmaker: _, field, line } => is_matchable_field(*field)
            && line.is_none(),
        _ => false,
    };
    l_ok && r_ok
}

/// Whether a field takes part in semantic matching.
pub fn is_matchable_field(f: PathField) -> (r: bool)
    ensures
        r == spec_is_matchable_field(f),
{
    match f {
        PathField::AhH | PathField::AhA | PathField::OuO | PathField::OuU | PathField::FairAhH
            | PathField::FairAhA | PathField::FairOuO | PathField::FairOuU | PathField::AggAh
            | PathField::AggOu | PathField::AggFairAh | PathField::AggFairOu | PathField::AggX12
            | PathField::AggFairX12 | PathField::X12H | PathField::X12X | PathField::X12A
            | PathField::FairX12H | PathField::FairX12X | PathField::FairX12A => true,
        _ => false,
    }
}

/// First right index carrying the line, and the field when one is asked
/// for, scanning forward.
fn first_line_field(right: &Resolved, line: i64, field: Option<PathField>) -> (r: usize)
    ensures
        r == spec_first_line_field(right@, line, field, right@.len() as int),
        r <= right@.len(),
{
    let n = right.len();
    let mut i: usize = 0;
    while i < n
        invariant
            0 <= i <= n == right@.len(),
            spec_first_line_field(right@, line, field, i as int) == i as int || (
            spec_first_line_field(right@, line, field, i as int) < i as int && false),
            forall|k: int|
                0 <= k < i ==> !(right@[k].1.line == Some(line) && (field is None || Some(
                    right@[k].1.field,
                ) == field)),
            spec_first_line_field(right@, line, field, i as int) == i as int,
        decreases n - i,
    {
        let t = right[i].1;
        let field_ok = match field {
            None => true,
            Some(f) => field_eq(t.field, f),
        };
        let line_ok = match t.line {
            Some(l) => l == line,
            None => false,
        };
        if line_ok && field_ok {
            proof {
                lemma_first_line_field_stable(right@, line, field, i as int);
            }
            return i;
        }
        i = i + 1;
    }
    n
}

/// Once found, the first match stays the first match for longer prefixes.
proof fn lemma_first_line_field_stable(
    right: Seq<(Q, Tag)>,
    line: i64,
    field: Option<PathField>,
    i: int,
)
    requires
        0 <= i < right.len(),
        spec_first_line_field(right, line, field, i) == i,
        right[i].1.line == Some(line),
        field is None || Some(right[i].1.field) == field,
    ensures
        spec_first_line_field(right, line, field, right.len() as int) == i,
    decreases right.len() - i,
{
    lemma_first_line_field_step(right, line, field, i);
}

/// The first-match position below `n` never grows past a found match.
proof fn lemma_first_line_field_step(
    right: Seq<(Q, Tag)>,
    line: i64,
    field: Option<PathField>,
    i: int,
)
    requires
        0 <= i < right.len(),
        spec_first_line_field(right, line, field, i) == i,
        right[i].1.line == Some(line),
        field is None || Some(right[i].1.field) == field,
    ensures
        forall|n: int|
            i < n <= right.len() ==> spec_first_line_field(right, line, field, n) == i,
{
    assert forall|n: int|
        i < n <= right.len() implies spec_first_line_field(right, line, field, n) == i by {
        lemma_first_grow(right, line, field, i, n);
    }
}

/// Helper induction for `lemma_first_line_field_step`.
proof fn lemma_first_grow(
    right: Seq<(Q, Tag)>,
    line: i64,
    field: Option<PathField>,
    i: int,
    n: int,
)
    requires
        0 <= i < right.len(),
        spec_first_line_field(right, line, field, i) == i,
        right[i].1.line == Some(line),
        field is None || Some(right[i].1.field) == field,
        i < n <= right.len(),
    ensures
        spec_first_line_field(right, line, field, n) == i,
    decreases n,
{
    if n == i + 1 {
    } else {
        lemma_first_grow(right, line, field, i, n - 1);
    }
}

/// Field equality by variant.
pub fn field_eq(a: PathField, b: PathField) -> (r: bool)
    ensures
        r == (a == b),
{
    let ai = field_code(a);
    let bi = field_code(b);
    ai == bi
}

/// A distinct code per field variant.
fn field_code(f: PathField) -> (r: u32)
    ensures
        forall|g: PathField| field_code_spec(f) == field_code_spec(g) <==> f == g,
        r == field_code_spec(f),
{
    match f {
        PathField::X12H => 0,
        PathField::X12X => 1,
        PathField::X12A => 2,
        PathField::FairX12H => 3,
        PathField::FairX12X => 4,
        PathField::FairX12A => 5,
        PathField::AhH => 6,
        PathField::AhA => 7,
        PathField::OuO => 8,
        PathField::OuU => 9,
        PathField::FairAhH => 10,
        PathField::FairAhA => 11,
        PathField::FairOuO => 12,
        PathField::FairOuU => 13,
        PathField::Timestamp => 14,
        PathField::AggX12 => 15,
        PathField::AggAh => 16,
        PathField::AggOu => 17,
        PathField::AggFairX12 => 18,
        PathField::AggFairAh => 19,
        PathField::AggFairOu => 20,
        PathField::Literal => 21,
    }
}

/// The code of each field variant.
pub open spec fn field_code_spec(f: PathField) -> u32 {
    match f {
        PathField::X12H => 0,
        PathField::X12X => 1,
        PathField::X12A => 2,
        PathField::FairX12H => 3,
        PathField::FairX12X => 4,
        PathField::FairX12A => 5,
        PathField::AhH => 6,
        PathField::AhA => 7,
        PathField::OuO => 8,
        PathField::OuU => 9,
        PathField::FairAhH => 10,
        PathField::FairAhA => 11,
        PathField::FairOuO => 12,
        PathField::FairOuU => 13,
        PathField::Timestamp => 14,
        PathField::AggX12 => 15,
        PathField::AggAh => 16,
        PathField::AggOu => 17,
        PathField::AggFairX12 => 18,
        PathField::AggFairAh => 19,
        PathField::AggFairOu => 20,
        PathField::Literal => 21,
    }
}

} // verus!
verus! {

/// The first-match position is in range exactly when a match exists, and
/// then carries the line (and asked-for field).
proof fn lemma_first_found(right: Seq<(Q, Tag)>, line: i64, field: Option<PathField>, n: int)
    requires
        0 <= n <= right.len(),
    ensures
        (spec_first_line_field(right, line, field, n) < n) <==> exists|j: int|
            0 <= j < n && right[j].1.line == Some(line) && (field is None || Some(
                #[trigger] right[j].1.field,
            ) == field),
        spec_first_line_field(right, line, field, n) < n ==> {
            let p = spec_first_line_field(right, line, field, n);
            &&& 0 <= p < n
            &&& right[p].1.line == Some(line)
            &&& (field is None || Some(right[p].1.field) == field)
        },
        spec_first_line_field(right, line, field, n) >= 0,
    decreases n,
{
    if n > 0 {
        lemma_first_found(right, line, field, n - 1);
    }
}

/// Whether a rational is a valid integer-encoded odds value, above `1.00`.
pub open spec fn spec_valid_odds(q: Q) -> bool {
    q.num > 1000 * q.den
}

/// Valid-odds test.
fn valid_odds(q: Q) -> (r: bool)
    requires
        q_wf(q),
    ensures
        r == spec_valid_odds(q),
{
    proof {
        assert(1000 * (q.den as int) <= 1000 * 0x4_0000_0000_0000) by (nonlinear_arith)
            requires
                q.den <= 0x4_0000_0000_0000,
        ;
        assert(1000 * (q.den as int) >= 0) by (nonlinear_arith)
            requires
                q.den > 0,
        ;
    }
    (q.num as i128) > 1000 * (q.den as i128)
}

/// The entries of a resolved sequence whose values are valid odds.
pub open spec fn spec_filter_valid(v: Seq<(Q, Tag)>, n: int) -> Seq<(Q, Tag)>
    decreases n,
{
    if n <= 0 || n > v.len() {
        Seq::empty()
    } else {
        let rest = spec_filter_valid(v, n - 1);
        if spec_valid_odds(v[n - 1].0) {
            rest.push(v[n - 1])
        } else {
            rest
        }
    }
}

/// Keeps the valid-odds entries of a resolved sequence.
fn filter_valid(v: &Resolved) -> (r: Resolved)
    requires
        forall|k: int| 0 <= k < v@.len() ==> q_wf(#[trigger] v@[k].0),
    ensures
        r@ == spec_filter_valid(v@, v@.len() as int),
        forall|k: int| 0 <= k < r@.len() ==> q_wf(#[trigger] r@[k].0),
{
    let mut r: Resolved = Vec::new();
    let n = v.len();
    let mut i: usize = 0;
    while i < n
        invariant
            0 <= i <= n == v@.len(),
            forall|k: int| 0 <= k < v@.len() ==> q_wf(#[trigger] v@[k].0),
            r@ =~= spec_filter_valid(v@, i as int),
            forall|k: int| 0 <= k < r@.len() ==> q_wf(#[trigger] r@[k].0),
        decreases n - i,
    {
        if valid_odds(v[i].0) {
            r.push(v[i]);
        }
        proof {
            assert(r@ =~= spec_filter_valid(v@, i as int + 1));
        }
        i = i + 1;
    }
    r
}

/// Pairs two resolved sequences line by line and applies the operation.
fn pair_by_line(op: ArithOp, left: &Resolved, right: &Resolved, counterpart: bool) -> (r: Vec<
    ArithDetail,
>)
    requires
        forall|k: int| 0 <= k < left@.len() ==> q_wf(#[trigger] left@[k].0),
        forall|k: int| 0 <= k < right@.len() ==> q_wf(#[trigger] right@[k].0),
    ensures
        r@ == spec_pair_by_line(op, left@, right@, left@.len() as int, counterpart),
        forall|k: int| 0 <= k < r@.len() ==> q_wf(#[trigger] r@[k].result),
    decreases left@.len(),
{
    let mut out: Vec<ArithDetail> = Vec::new();
    let n = left.len();
    let mut i: usize = 0;
    while i < n
        invariant
            0 <= i <= n == left@.len(),
            forall|k: int| 0 <= k < left@.len() ==> q_wf(#[trigger] left@[k].0),
            forall|k: int| 0 <= k < right@.len() ==> q_wf(#[trigger] right@[k].0),
            out@ =~= spec_pair_by_line(op, left@, right@, i as int, counterpart),
            forall|k: int| 0 <= k < out@.len() ==> q_wf(#[trigger] out@[k].result),
        decreases n - i,
    {
        let l = left[i];
        let pref = if counterpart {
            find_matching_right_path(l.1.field)
        } else {
            l.1.field
        };
        match l.1.line {
            Some(line) => {
                proof {
                    lemma_first_found(right@, line, Some(pref), right@.len() as int);
                    lemma_first_found(right@, line, None, right@.len() as int);
                }
                let j1 = first_line_field(right, line, Some(pref));
                let j = if j1 < right.len() {
                    Some(j1)
                } else {
                    let j2 = first_line_field(right, line, None);
                    if j2 < right.len() {
                        Some(j2)
                    } else {
                        None
                    }
                };
                proof {
                    match spec_right_match(right@, line, pref) {
                        Some(sj) => {
                            assert(j == Some(sj as usize) || sj < 0 || sj >= right@.len());
                        },
                        None => {
                            assert(j is None);
                        },
                    }
                }
                match j {
                    Some(ji) => {
                        match perform_op(op, l.0, right[ji].0) {
                            Some(v) => {
                                out.push(
                                    ArithDetail {
                                        left_value: l.0,
                                        left_tag: l.1,
                                        right_value: right[ji].0,
                                        right_tag: right[ji].1,
                                        result: v,
                                        op,
                                    },
                                );
                            },
                            None => {},
                        }
                    },
                    None => {},
                }
            },
            None => {},
        }
        proof {
            assert(out@ =~= spec_pair_by_line(op, left@, right@, i as int + 1, counterpart));
        }
        i = i + 1;
    }
    out
}

/// Position-by-position pairing of two equal-length sequences: pairs whose
/// operation fails are dropped.
pub open spec fn spec_pair_positionwise(
    op: ArithOp,
    left: Seq<(Q, Tag)>,
    right: Seq<(Q, Tag)>,
    n: int,
) -> Seq<ArithDetail>
    decreases n,
{
    if n <= 0 || n > left.len() || n > right.len() {
        Seq::empty()
    } else {
        let rest = spec_pair_positionwise(op, left, right, n - 1);
        match spec_perform_op(op, left[n - 1].0, right[n - 1].0) {
            None => rest,
            Some(v) => rest.push(
                ArithDetail {
                    left_value: left[n - 1].0,
                    left_tag: left[n - 1].1,
                    right_value: right[n - 1].0,
                    right_tag: right[n - 1].1,
                    result: v,
                    op: op,
                },
            ),
        }
    }
}

/// Pairs two equal-length sequences position by position.
fn pair_positionwise(op: ArithOp, left: &Resolved, right: &Resolved) -> (r: Vec<ArithDetail>)
    requires
        left@.len() == right@.len(),
        forall|k: int| 0 <= k < left@.len() ==> q_wf(#[trigger] left@[k].0),
        forall|k: int| 0 <= k < right@.len() ==> q_wf(#[trigger] right@[k].0),
    ensures
        r@ == spec_pair_positionwise(op, left@, right@, left@.len() as int),
        forall|k: int| 0 <= k < r@.len() ==> q_wf(#[trigger] r@[k].result),
{
    let mut out: Vec<ArithDetail> = Vec::new();
    let n = left.len();
    let mut i: usize = 0;
    while i < n
        invariant
            0 <= i <= n == left@.len() && n == right@.len(),
            forall|k: int| 0 <= k < left@.len() ==> q_wf(#[trigger] left@[k].0),
            forall|k: int| 0 <= k < right@.len() ==> q_wf(#[trigger] right@[k].0),
            out@ == spec_pair_positionwise(op, left@, right@, i as int),
            forall|k: int| 0 <= k < out@.len() ==> q_wf(#[trigger] out@[k].result),
        decreases n - i,
    {
        match perform_op(op, left[i].0, right[i].0) {
            Some(v) => {
                out.push(ArithDetail { left_value: left[i].0, left_tag: left[i].1, right_value: right[i].0, right_tag: right[i].1, result: v, op });
            },
            None => {},
        }
        proof {
            assert(out@ =~= spec_pair_positionwise(op, left@, right@, i as int + 1));
        }
        i = i + 1;
    }
    out
}

/// Broadcast pairing: the single value on one side meets every entry of
/// the other; pairs whose operation fails are dropped.
pub open spec fn spec_pair_broadcast(
    op: ArithOp,
    left: Seq<(Q, Tag)>,
    right: Seq<(Q, Tag)>,
    single_right: bool,
    n: int,
) -> Seq<ArithDetail>
    decreases n,
{
    if single_right {
        if n <= 0 || n > left.len() || right.len() == 0 {
            Seq::empty()
        } else {
            let rest = spec_pair_broadcast(op, left, right, single_right, n - 1);
            match spec_perform_op(op, left[n - 1].0, right[0].0) {
                None => rest,
                Some(v) => rest.push(
                    ArithDetail {
                        left_value: left[n - 1].0,
                        left_tag: left[n - 1].1,
                        right_value: right[0].0,
                        right_tag: right[0].1,
                        result: v,
                        op: op,
                    },
                ),
            }
        }
    } else {
        if n <= 0 || n > right.len() || left.len() == 0 {
            Seq::empty()
        } else {
            let rest = spec_pair_broadcast(op, left, right, single_right, n - 1);
            match spec_perform_op(op, left[0].0, right[n - 1].0) {
                None => rest,
                Some(v) => rest.push(
                    ArithDetail {
                        left_value: left[0].0,
                        left_tag: left[0].1,
                        right_value: right[n - 1].0,
                        right_tag: right[n - 1].1,
                        result: v,
                        op: op,
                    },
                ),
            }
        }
    }
}

/// First right position carrying the field, or the length.
pub open spec fn spec_field_pos(right: Seq<(Q, Tag)>, f: PathField) -> int
    decreases right.len(),
{
    if right.len() == 0 {
        0
    } else if right[0].1.field == f {
        0
    } else {
        1 + spec_field_pos(right.drop_first(), f)
    }
}

/// Field pairing: each left entry against the first right entry of the
/// same field; entries without a partner, or whose operation fails, are
/// dropped.
pub open spec fn spec_pair_by_field(
    op: ArithOp,
    left: Seq<(Q, Tag)>,
    right: Seq<(Q, Tag)>,
    n: int,
) -> Seq<ArithDetail>
    decreases n,
{
    if n <= 0 || n > left.len() {
        Seq::empty()
    } else {
        let rest = spec_pair_by_field(op, left, right, n - 1);
        let l = left[n - 1];
        let p = spec_field_pos(right, l.1.field);
        if p < right.len() {
            match spec_perform_op(op, l.0, right[p].0) {
                None => rest,
                Some(v) => rest.push(
                    ArithDetail {
                        left_value: l.0,
                        left_tag: l.1,
                        right_value: right[p].0,
                        right_tag: right[p].1,
                        result: v,
                        op: op,
                    },
                ),
            }
        } else {
            rest
        }
    }
}

/// The scan position of the first matching field equals `spec_field_pos`.
proof fn lemma_field_pos(right: Seq<(Q, Tag)>, f: PathField, i: int)
    requires
        0 <= i <= right.len(),
        forall|k: int| 0 <= k < i ==> (#[trigger] right[k]).1.field != f,
        i < right.len() ==> right[i].1.field == f,
    ensures
        spec_field_pos(right, f) == i,
    decreases right.len(),
{
    if right.len() > 0 {
        if i == 0 {
        } else {
            let t = right.drop_first();
            assert(forall|k: int| 0 <= k < i - 1 ==> t[k] == right[k + 1]);
            assert(i - 1 < t.len() ==> t[i - 1] == right[i]);
            lemma_field_pos(t, f, i - 1);
        }
    }
}

/// Broadcasts one single value against a sequence (on whichever side the
/// single value stands).
fn pair_broadcast(op: ArithOp, left: &Resolved, right: &Resolved, single_right: bool) -> (r: Vec<
    ArithDetail,
>)
    requires
        single_right ==> right@.len() == 1,
        !single_right ==> left@.len() == 1,
        forall|k: int| 0 <= k < left@.len() ==> q_wf(#[trigger] left@[k].0),
        forall|k: int| 0 <= k < right@.len() ==> q_wf(#[trigger] right@[k].0),
    ensures
        single_right ==> r@ == spec_pair_broadcast(op, left@, right@, true, left@.len() as int),
        !single_right ==> r@ == spec_pair_broadcast(
            op,
            left@,
            right@,
            false,
            right@.len() as int,
        ),
        forall|k: int| 0 <= k < r@.len() ==> q_wf(#[trigger] r@[k].result),
{
    let mut out: Vec<ArithDetail> = Vec::new();
    if single_right {
        let rv = right[0];
        let n = left.len();
        let mut i: usize = 0;
        while i < n
            invariant
                0 <= i <= n == left@.len(),
                right@.len() == 1,
                rv == right@[0],
                q_wf(rv.0),
                forall|k: int| 0 <= k < left@.len() ==> q_wf(#[trigger] left@[k].0),
                out@ == spec_pair_broadcast(op, left@, right@, true, i as int),
                forall|k: int| 0 <= k < out@.len() ==> q_wf(#[trigger] out@[k].result),
            decreases n - i,
        {
            match perform_op(op, left[i].0, rv.0) {
                Some(v) => {
                    out.push(ArithDetail { left_value: left[i].0, left_tag: left[i].1, right_value: rv.0, right_tag: rv.1, result: v, op });
                },
                None => {},
            }
            proof {
                assert(out@ =~= spec_pair_broadcast(op, left@, right@, true, i as int + 1));
            }
            i = i + 1;
        }
    } else {
        let lv = left[0];
        let n = right.len();
        let mut i: usize = 0;
        while i < n
            invariant
                0 <= i <= n == right@.len(),
                left@.len() == 1,
                lv == left@[0],
                q_wf(lv.0),
                forall|k: int| 0 <= k < right@.len() ==> q_wf(#[trigger] right@[k].0),
                out@ == spec_pair_broadcast(op, left@, right@, false, i as int),
                forall|k: int| 0 <= k < out@.len() ==> q_wf(#[trigger] out@[k].result),
            decreases n - i,
        {
            match perform_op(op, lv.0, right[i].0) {
                Some(v) => {
                    out.push(ArithDetail { left_value: lv.0, left_tag: lv.1, right_value: right[i].0, right_tag: right[i].1, result: v, op });
                },
                None => {},
            }
            proof {
                assert(out@ =~= spec_pair_broadcast(op, left@, right@, false, i as int + 1));
            }
            i = i + 1;
        }
    }
    out
}

/// Pairs by field: each left entry against the first right entry of the
/// same field.
fn pair_by_field(op: ArithOp, left: &Resolved, right: &Resolved) -> (r: Vec<ArithDetail>)
    requires
        forall|k: int| 0 <= k < left@.len() ==> q_wf(#[trigger] left@[k].0),
        forall|k: int| 0 <= k < right@.len() ==> q_wf(#[trigger] right@[k].0),
    ensures
        r@ == spec_pair_by_field(op, left@, right@, left@.len() as int),
        forall|k: int| 0 <= k < r@.len() ==> q_wf(#[trigger] r@[k].result),
{
    let mut out: Vec<ArithDetail> = Vec::new();
    let n = left.len();
    let mut i: usize = 0;
    while i < n
        invariant
            0 <= i <= n == left@.len(),
            forall|k: int| 0 <= k < left@.len() ==> q_wf(#[trigger] left@[k].0),
            forall|k: int| 0 <= k < right@.len() ==> q_wf(#[trigger] right@[k].0),
            out@ == spec_pair_by_field(op, left@, right@, i as int),
            forall|k: int| 0 <= k < out@.len() ==> q_wf(#[trigger] out@[k].result),
        decreases n - i,
    {
        let l = left[i];
        let m = right.len();
        let mut j: usize = 0;
        let mut hit: Option<usize> = None;
        while j < m && hit.is_none()
            invariant
                0 <= j <= m == right@.len(),
                i < left@.len(),
                l == left@[i as int],
                match hit {
                    Some(h) => h < right@.len() && right@[h as int].1.field == l.1.field
                        && spec_field_pos(right@, l.1.field) == h,
                    None => forall|k: int|
                        0 <= k < j ==> (#[trigger] right@[k]).1.field != l.1.field,
                },
            decreases m - j, (if hit is None { 1int } else { 0int }),
        {
            if field_eq(right[j].1.field, l.1.field) {
                proof {
                    lemma_field_pos(right@, l.1.field, j as int);
                }
                hit = Some(j);
            } else {
                j = j + 1;
            }
        }
        proof {
            if hit is None {
                lemma_field_pos(right@, l.1.field, right@.len() as int);
            }
        }
        match hit {
            Some(h) => {
                match perform_op(op, l.0, right[h].0) {
                    Some(v) => {
                        out.push(ArithDetail { left_value: l.0, left_tag: l.1, right_value: right[h].0, right_tag: right[h].1, result: v, op });
                    },
                    None => {},
                }
            },
            None => {},
        }
        proof {
            assert(out@ =~= spec_pair_by_field(op, left@, right@, i as int + 1));
        }
        i = i + 1;
    }
    out
}

/// Whether any entry carries a line.
fn has_lines(v: &Resolved) -> (r: bool)
    ensures
        r == exists|k: int| 0 <= k < v@.len() && (#[trigger] v@[k]).1.line is Some,
{
    let n = v.len();
    let mut i: usize = 0;
    while i < n
        invariant
            0 <= i <= n == v@.len(),
            forall|k: int| 0 <= k < i ==> (#[trigger] v@[k]).1.line is None,
        decreases n - i,
    {
        if v[i].1.line.is_some() {
            proof {
                assert((v@[i as int]).1.line is Some);
            }
            return true;
        }
        i = i + 1;
    }
    false
}

/// The detail list turned into a resolved sequence: results with the left
/// operand's provenance.
fn details_values(d: &Vec<ArithDetail>) -> (r: Resolved)
    requires
        forall|k: int| 0 <= k < d@.len() ==> q_wf(#[trigger] d@[k].result),
    ensures
        r@ == spec_details_values(d@),
        r@.len() == d@.len(),
        forall|k: int|
            0 <= k < r@.len() ==> #[trigger] r@[k] == (d@[k].result, d@[k].left_tag) && q_wf(
                r@[k].0,
            ),
{
    let mut r: Resolved = Vec::new();
    let n = d.len();
    let mut i: usize = 0;
    while i < n
        invariant
            0 <= i <= n == d@.len(),
            forall|k: int| 0 <= k < d@.len() ==> q_wf(#[trigger] d@[k].result),
            r@.len() == i,
            forall|k: int|
                0 <= k < r@.len() ==> #[trigger] r@[k] == (d@[k].result, d@[k].left_tag) && q_wf(
                    r@[k].0,
                ),
        decreases n - i,
    {
        let e = d[i];
        r.push((e.result, e.left_tag));
        i = i + 1;
    }
    proof {
        assert(r@ =~= spec_details_values(d@));
    }
    r
}

/// Floor of a non-negative rational as a machine integer, for millisecond
/// ages.
fn q_floor_ms(q: Q) -> (r: i64)
    requires
        q_wf(q),
    ensures
        r == q.num as int / q.den as int,
{
    proof {
        let n = q.num as int;
        let d = q.den as int;
        let qd = n / d;
        if n >= 0 {
            vstd::arithmetic::div_mod::lemma_div_pos_is_pos(n, d);
            vstd::arithmetic::div_mod::lemma_div_nonincreasing(n, d);
        } else {
            vstd::arithmetic::div_mod::lemma_fundamental_div_mod(n, d);
            vstd::arithmetic::div_mod::lemma_mod_bound(n, d);
            assert(qd <= 0 && qd >= n - d) by (nonlinear_arith)
                requires
                    d >= 1,
                    d * qd == n - (n % d),
                    0 <= n % d < d,
                    n < 0,
            ;
        }
    }
    let (d, _) = crate::numeric::floor_div_mod_pub(q.num as i128, q.den as i128);
    d as i64
}

/// Picks the oldest in-window history snapshot of a bookmaker: history
/// runs newest first, so it is the last qualifying entry.
fn history_pick(b: &BookmakerOdds, max_age_ms: i64) -> (r: Option<usize>)
    requires
        forall|k: int|
            0 <= k < b.history@.len() ==> -1_000_000_000_000_000 <= #[trigger] b.history@[k].timestamp
                <= 1_000_000_000_000_000,
        -1_000_000_000_000_000 <= b.current.timestamp <= 1_000_000_000_000_000,
    ensures
        match r {
            Some(k) => spec_hist_pick(
                b.history@,
                b.current.timestamp,
                max_age_ms as int,
                b.history@.len() as int,
            ) == Some(k as int) && k < b.history@.len() && b.current.timestamp
                - b.history@[k as int].timestamp <= max_age_ms && forall|j: int|
                (k as int) < j < b.history@.len() ==> b.current.timestamp
                    - #[trigger] b.history@[j].timestamp > max_age_ms,
            None => spec_hist_pick(
                b.history@,
                b.current.timestamp,
                max_age_ms as int,
                b.history@.len() as int,
            ) is None && forall|k: int|
                0 <= k < b.history@.len() ==> b.current.timestamp - #[trigger] b.history@[k].timestamp
                    > max_age_ms,
        },
{
    let n = b.history.len();
    let mut i: usize = n;
    while i > 0
        invariant
            0 <= i <= n == b.history@.len(),
            forall|k: int|
                0 <= k < b.history@.len() ==> -1_000_000_000_000_000
                    <= #[trigger] b.history@[k].timestamp <= 1_000_000_000_000_000,
            -1_000_000_000_000_000 <= b.current.timestamp <= 1_000_000_000_000_000,
            forall|j: int|
                (i as int) <= j < b.history@.len() ==> b.current.timestamp
                    - #[trigger] b.history@[j].timestamp > max_age_ms,
            spec_hist_pick(
                b.history@,
                b.current.timestamp,
                max_age_ms as int,
                n as int,
            ) == spec_hist_pick(b.history@, b.current.timestamp, max_age_ms as int, i as int),
        decreases i,
    {
        i = i - 1;
        if b.current.timestamp - b.history[i].timestamp <= max_age_ms {
            return Some(i);
        }
    }
    None
}

} // verus!
verus! {

/// Resolves one operand: a literal, a literal list, a field, or a nested
/// computation.
fn resolve_voc(doc: &FilterDoc, v: &ValueOrComputed, ctx: &EvalCtx) -> (r: Option<Resolved>)
    requires
        doc_wf(*doc),
    ensures
        match r {
            Some(w) => forall|k: int| 0 <= k < w@.len() ==> q_wf(#[trigger] w@[k].0),
            None => true,
        },
        (match (r, spec_resolve_voc(*doc, *v, ctx_vars_view(*ctx))) {
            (Some(w), Some(sv)) => w@ == sv,
            (None, None) => true,
            _ => false,
        }),
    decreases voc_height(*v), 0nat,
{
    match v {
        ValueOrComputed::Literal(q) => {
            let qq = *q;
            if 0 < qq.den && qq.den <= crate::rational::Q_BOUND && -crate::rational::Q_BOUND
                <= qq.num && qq.num <= crate::rational::Q_BOUND {
                let mut w: Resolved = Vec::new();
                w.push((qq, Tag { book: None, field: PathField::Literal, line: None }));
                proof {
                    assert(w@ =~= seq![
                        (qq, Tag { book: None, field: PathField::Literal, line: None }),
                    ]);
                }
                Some(w)
            } else {
                None
            }
        },
        ValueOrComputed::LiteralList(qs) => {
            let mut w: Resolved = Vec::new();
            let n = qs.len();
            let mut i: usize = 0;
            while i < n
                invariant
                    0 <= i <= n == qs@.len(),
                    w@ == spec_lit_list(qs@, i as int),
                    forall|k: int| 0 <= k < w@.len() ==> q_wf(#[trigger] w@[k].0),
                decreases n - i,
            {
                let qq = qs[i];
                if 0 < qq.den && qq.den <= crate::rational::Q_BOUND && -crate::rational::Q_BOUND
                    <= qq.num && qq.num <= crate::rational::Q_BOUND {
                    w.push((qq, Tag { book: None, field: PathField::Literal, line: None }));
                }
                proof {
                    assert(w@ =~= spec_lit_list(qs@, i as int + 1));
                }
                i = i + 1;
            }
            if w.len() == 0 {
                None
            } else {
                Some(w)
            }
        },
        ValueOrComputed::Field(p) => resolve_field(doc, p, ctx),
        ValueOrComputed::Computed(c) => {
            match arith_eval(doc, c, ctx) {
                Some(v2) => Some(v2.0),
                None => None,
            }
        },
    }
}

/// Evaluates one arithmetic node: the history operator reads a past
/// snapshot; two direct matchable field paths pair semantically by line
/// with the canonical counterpart preference; anything else pairs by line
/// when both sides carry lines, position-wise at equal lengths, by
/// broadcast against a single value, or by field.  Every produced value is
/// aligned with the detail that produced it.
fn arith_eval(doc: &FilterDoc, comp: &ComputedValue, ctx: &EvalCtx) -> (r: Option<
    (Resolved, Vec<ArithDetail>),
>)
    requires
        doc_wf(*doc),
    ensures
        match r {
            Some(w) => w.0@.len() > 0 && (forall|k: int|
                0 <= k < w.0@.len() ==> q_wf(#[trigger] w.0@[k].0)) && (forall|k: int|
                0 <= k < w.1@.len() ==> q_wf(#[trigger] w.1@[k].result)),
            None => true,
        },
        (match (r, spec_arith_eval(*doc, *comp, ctx_vars_view(*ctx))) {
            (Some(w), Some(sw)) => w.0@ == sw.0 && w.1@ == sw.1,
            (None, None) => true,
            _ => false,
        }),
    decreases comp_height(*comp), 1nat,
{
    if matches!(comp.op, ArithOp::History) {
        return history_eval(doc, comp, ctx);
    }
    let semantic = match (&comp.left, &comp.right) {
        (ValueOrComputed::Field(lp), ValueOrComputed::Field(rp)) => should_use_line_matching(
            lp,
            rp,
        ),
        _ => false,
    };
    let left = match resolve_voc(doc, &comp.left, ctx) {
        Some(v) => v,
        None => {
            return None;
        },
    };
    let right = match resolve_voc(doc, &comp.right, ctx) {
        Some(v) => v,
        None => {
            return None;
        },
    };
    let details: Vec<ArithDetail> = if semantic {
        let lv = filter_valid_unless_scalar(&left);
        let rv = filter_valid_unless_scalar(&right);
        if has_lines(&lv) || has_lines(&rv) {
            pair_by_line(comp.op, &lv, &rv, true)
        } else {
            pair_by_field(comp.op, &lv, &rv)
        }
    } else {
        if has_lines(&left) && has_lines(&right) {
            pair_by_line(comp.op, &left, &right, false)
        } else if left.len() == right.len() {
            pair_positionwise(comp.op, &left, &right)
        } else if right.len() == 1 {
            pair_broadcast(comp.op, &left, &right, true)
        } else if left.len() == 1 {
            pair_broadcast(comp.op, &left, &right, false)
        } else {
            pair_by_field(comp.op, &left, &right)
        }
    };
    let values = details_values(&details);
    if values.len() == 0 {
        None
    } else {
        Some((values, details))
    }
}

/// Keeps valid odds entries, except that three-way scalar values pass
/// through untouched (they are paired as scalars, not by line).
fn filter_valid_unless_scalar(v: &Resolved) -> (r: Resolved)
    requires
        forall|k: int| 0 <= k < v@.len() ==> q_wf(#[trigger] v@[k].0),
    ensures
        r@ == spec_filter_valid_unless_scalar(v@, v@.len() as int),
        forall|k: int| 0 <= k < r@.len() ==> q_wf(#[trigger] r@[k].0),
{
    let mut r: Resolved = Vec::new();
    let n = v.len();
    let mut i: usize = 0;
    while i < n
        invariant
            0 <= i <= n == v@.len(),
            forall|k: int| 0 <= k < v@.len() ==> q_wf(#[trigger] v@[k].0),
            r@ == spec_filter_valid_unless_scalar(v@, i as int),
            forall|k: int| 0 <= k < r@.len() ==> q_wf(#[trigger] r@[k].0),
        decreases n - i,
    {
        let e = v[i];
        let keep = match e.1.line {
            Some(_) => valid_odds(e.0),
            None => true,
        };
        if keep {
            r.push(e);
        }
        proof {
            assert(r@ =~= spec_filter_valid_unless_scalar(v@, i as int + 1));
        }
        i = i + 1;
    }
    r
}

/// Evaluates the history operator: the left operand names a direct field,
/// the right the age window in milliseconds; the field is read from the
/// oldest in-window snapshot of that bookmaker.
fn history_eval(doc: &FilterDoc, comp: &ComputedValue, ctx: &EvalCtx) -> (r: Option<
    (Resolved, Vec<ArithDetail>),
>)
    requires
        doc_wf(*doc),
        comp.op == ArithOp::History,
    ensures
        match r {
            Some(w) => w.0@.len() > 0 && (forall|k: int|
                0 <= k < w.0@.len() ==> q_wf(#[trigger] w.0@[k].0)) && (forall|k: int|
                0 <= k < w.1@.len() ==> q_wf(#[trigger] w.1@[k].result)),
            None => true,
        },
        (match (r, spec_history_eval(*doc, *comp, ctx_vars_view(*ctx))) {
            (Some(w), Some(sw)) => w.0@ == sw.0 && w.1@ == sw.1,
            (None, None) => true,
            _ => false,
        }),
    decreases comp_height(*comp), 0nat,
{
    let (bookmaker, field, line) = match &comp.left {
        ValueOrComputed::Field(p) => match &**p {
            FieldPath::Simple { bookmaker, field, line } => (bookmaker, *field, *line),
            _ => {
                return None;
            },
        },
        _ => {
            return None;
        },
    };
    let age = match resolve_voc(doc, &comp.right, ctx) {
        Some(v) => {
            if v.len() == 0 {
                return None;
            }
            q_floor_ms(v[0].0)
        },
        None => {
            return None;
        },
    };
    let b = match find_doc_book(doc, bookmaker.as_str()) {
        Some(b) => b,
        None => {
            return None;
        },
    };
    let entry = &doc.bookmakers[b].1;
    if !timestamps_sane(entry) {
        return None;
    }
    let k = match history_pick(entry, age) {
        Some(k) => k,
        None => {
            return None;
        },
    };
    let snap = &entry.history[k];
    let out = if is_agg(field) {
        let parts = agg_fields(field);
        let ghost snapg = doc.bookmakers@[b as int].1.history@[k as int];
        let mut out: Vec<(Q, Tag)> = Vec::new();
        let m = parts.len();
        let mut j: usize = 0;
        while j < m
            invariant
                0 <= j <= m == parts@.len(),
                b < doc.bookmakers@.len(),
                k < doc.bookmakers@[b as int].1.history@.len(),
                snapg == doc.bookmakers@[b as int].1.history@[k as int],
                spec_is_agg(field),
                parts@ == spec_agg_fields(field),
                out@ == spec_resolve_agg(snapg, b as int, parts@, j as int),
                forall|t: int| 0 <= t < out@.len() ==> q_wf(#[trigger] out@[t].0),
            decreases m - j,
        {
            let part = parts[j];
            proof {
                lemma_agg_part_kind(field, parts@, j as int);
            }
            match resolve_snapshot_field(&doc.bookmakers[b].1.history[k], b, part, None) {
                Some(mut v) => {
                    proof {
                        assert(v@ =~= spec_resolve_snap(snapg, b as int, part));
                    }
                    append_resolved(&mut out, &mut v);
                },
                None => {
                    proof {
                        assert(spec_resolve_snap(snapg, b as int, part) =~= Seq::<
                            (Q, Tag),
                        >::empty());
                    }
                },
            }
            proof {
                assert(out@ =~= spec_resolve_agg(snapg, b as int, parts@, j as int + 1));
            }
            j = j + 1;
        }
        out
    } else {
        match resolve_snapshot_field(snap, b, field, line) {
            Some(v) => v,
            None => {
                return None;
            },
        }
    };
    if out.len() == 0 {
        return None;
    }
    let details: Vec<ArithDetail> = Vec::new();
    Some((out, details))
}

/// All timestamps of a bookmaker entry within the sane millisecond range.
fn timestamps_sane(b: &BookmakerOdds) -> (r: bool)
    ensures
        r == spec_entry_sane(*b),
{
    if !(-1_000_000_000_000_000 <= b.current.timestamp && b.current.timestamp
        <= 1_000_000_000_000_000) {
        return false;
    }
    let n = b.history.len();
    let mut i: usize = 0;
    while i < n
        invariant
            0 <= i <= n == b.history@.len(),
            forall|k: int|
                0 <= k < i ==> -1_000_000_000_000_000 <= #[trigger] b.history@[k].timestamp
                    <= 1_000_000_000_000_000,
        decreases n - i,
    {
        let t = b.history[i].timestamp;
        if t < -1_000_000_000_000_000 || t > 1_000_000_000_000_000 {
            return false;
        }
        i = i + 1;
    }
    true
}

} // verus!
verus! {

/// One numeric comparison: equality and inequality carry the `10^-5`
/// tolerance, the order comparators are exact; `In` and `Exists` are
/// handled by the comparison evaluator itself.
pub open spec fn spec_compare(l: Q, op: CompareOp, r: Q) -> bool {
    match op {
        CompareOp::Eq => crate::rational::q_approx_eq(l, r),
        CompareOp::Neq => !crate::rational::q_approx_eq(l, r),
        CompareOp::Gt => crate::rational::q_lt(r, l),
        CompareOp::Gte => crate::rational::q_le(r, l),
        CompareOp::Lt => crate::rational::q_lt(l, r),
        CompareOp::Lte => crate::rational::q_le(l, r),
        _ => false,
    }
}

/// Compares two values.
pub fn compare(l: Q, op: CompareOp, r: Q) -> (res: bool)
    requires
        q_wf(l),
        q_wf(r),
    ensures
        res == spec_compare(l, op, r),
{
    match op {
        CompareOp::Eq => l.approx_eq(r),
        CompareOp::Neq => !l.approx_eq(r),
        CompareOp::Gt => r.lt(l),
        CompareOp::Gte => r.le(l),
        CompareOp::Lt => l.lt(r),
        CompareOp::Lte => l.le(r),
        _ => false,
    }
}

/// What the left side of a comparison resolves to: a computed field keeps
/// its detail list for trace attachment.
pub open spec fn spec_cmp_left(
    doc: FilterDoc,
    field: FieldPath,
    vars: Seq<(String, Seq<(Q, Tag)>)>,
) -> Option<(Seq<(Q, Tag)>, Seq<ArithDetail>)> {
    match field {
        FieldPath::Computed(c) => spec_arith_eval(doc, *c, vars),
        _ => match spec_resolve_field(doc, field, vars) {
            Some(v) => Some((v, Seq::empty())),
            None => None,
        },
    }
}

/// The traces an `exists` comparison records: one per resolved value.
pub open spec fn spec_exists_traces(left: Seq<(Q, Tag)>, n: int) -> Seq<MatchTrace>
    decreases n,
{
    if n <= 0 || n > left.len() {
        Seq::empty()
    } else {
        spec_exists_traces(left, n - 1).push(
            MatchTrace {
                op: CompareOp::Exists,
                threshold: None,
                result: left[n - 1].0,
                left_value: left[n - 1].0,
                left_tag: left[n - 1].1,
                right_value: None,
                right_tag: None,
                calc: None,
            },
        )
    }
}

/// Whether some right value lies within the membership tolerance of `q`.
pub open spec fn spec_in_hit(q: Q, right: Seq<(Q, Tag)>) -> bool {
    exists|j: int| 0 <= j < right.len() && crate::rational::q_approx_eq(q, (#[trigger] right[j]).0)
}

/// The traces an `in` comparison records: one per left value inside the
/// right set.
pub open spec fn spec_in_traces(left: Seq<(Q, Tag)>, right: Seq<(Q, Tag)>, n: int) -> Seq<
    MatchTrace,
>
    decreases n,
{
    if n <= 0 || n > left.len() {
        Seq::empty()
    } else {
        let rest = spec_in_traces(left, right, n - 1);
        if spec_in_hit(left[n - 1].0, right) {
            rest.push(
                MatchTrace {
                    op: CompareOp::In,
                    threshold: None,
                    result: left[n - 1].0,
                    left_value: left[n - 1].0,
                    left_tag: left[n - 1].1,
                    right_value: None,
                    right_tag: None,
                    calc: None,
                },
            )
        } else {
            rest
        }
    }
}

/// The traces a numeric comparison records: one per satisfied pairing,
/// broadcasting a single right value, with the arithmetic operation of the
/// detail that produced the left value attached.
pub open spec fn spec_numeric_traces(
    left: Seq<(Q, Tag)>,
    right: Seq<(Q, Tag)>,
    details: Seq<ArithDetail>,
    op: CompareOp,
    n: int,
) -> Seq<MatchTrace>
    decreases n,
{
    if n <= 0 || n > left.len() {
        Seq::empty()
    } else {
        let rest = spec_numeric_traces(left, right, details, op, n - 1);
        let rv = if right.len() == 1 {
            right[0]
        } else {
            right[n - 1]
        };
        if spec_compare(left[n - 1].0, op, rv.0) {
            rest.push(
                MatchTrace {
                    op: op,
                    threshold: Some(rv.0),
                    result: left[n - 1].0,
                    left_value: left[n - 1].0,
                    left_tag: left[n - 1].1,
                    right_value: Some(rv.0),
                    right_tag: Some(rv.1),
                    calc: if n - 1 < details.len() {
                        Some(details[n - 1].op)
                    } else {
                        None
                    },
                },
            )
        } else {
            rest
        }
    }
}

/// The verdict of one comparison and the traces it records: resolution
/// failure (absence) is a non-match; `exists` asks for a non-empty
/// resolution; `in` for membership within tolerance; the numeric
/// comparators broadcast a single right value or pair position-wise at
/// equal lengths, anything else failing.
pub open spec fn spec_eval_compare(
    doc: FilterDoc,
    cmp: CompareExpr,
    vars: Seq<(String, Seq<(Q, Tag)>)>,
) -> (bool, Seq<MatchTrace>) {
    match spec_cmp_left(doc, cmp.field, vars) {
        None => (false, Seq::empty()),
        Some((left, details)) => {
            if cmp.op == CompareOp::Exists {
                (left.len() > 0, spec_exists_traces(left, left.len() as int))
            } else {
                match cmp.value {
                    None => (false, Seq::empty()),
                    Some(v) => match spec_resolve_voc(doc, v, vars) {
                        None => (false, Seq::empty()),
                        Some(right) => {
                            if right.len() == 0 || left.len() == 0 {
                                (false, Seq::empty())
                            } else if cmp.op == CompareOp::In {
                                let ts = spec_in_traces(left, right, left.len() as int);
                                (ts.len() > 0, ts)
                            } else if right.len() == 1 || left.len() == right.len() {
                                let ts = spec_numeric_traces(
                                    left,
                                    right,
                                    details,
                                    cmp.op,
                                    left.len() as int,
                                );
                                (ts.len() > 0, ts)
                            } else {
                                (false, Seq::empty())
                            }
                        },
                    },
                }
            }
        },
    }
}

/// Evaluates one comparison node, recording a trace for every satisfied
/// pairing; `exists` is satisfied by any resolution, `in` by any left
/// value within tolerance of any right value, and the numeric comparators
/// broadcast a single right value or pair positionally at equal lengths.
fn eval_compare(doc: &FilterDoc, cmp: &CompareExpr, ctx: &mut EvalCtx) -> (res: bool)
    requires
        doc_wf(*doc),
    ensures
        final(ctx).vars@ == old(ctx).vars@,
        res == spec_eval_compare(*doc, *cmp, ctx_vars_view(*old(ctx))).0,
        final(ctx).traces@ == old(ctx).traces@ + spec_eval_compare(
            *doc,
            *cmp,
            ctx_vars_view(*old(ctx)),
        ).1,
{
    let ghost vars0 = ctx_vars_view(*ctx);
    let ghost t0 = ctx.traces@;
    let ghost sc = spec_eval_compare(*doc, *cmp, vars0);
    let mut details: Vec<ArithDetail> = Vec::new();
    let left: Resolved = match &cmp.field {
        FieldPath::Computed(c) => {
            match arith_eval(doc, c, ctx) {
                Some((v, d)) => {
                    details = d;
                    v
                },
                None => {
                    proof {
                        assert(ctx.traces@ =~= t0 + sc.1);
                    }
                    return false;
                },
            }
        },
        _ => {
            match resolve_field(doc, &cmp.field, ctx) {
                Some(v) => v,
                None => {
                    proof {
                        assert(spec_cmp_left(*doc, cmp.field, vars0) is None);
                        assert(ctx.traces@ =~= t0 + sc.1);
                    }
                    return false;
                },
            }
        },
    };
    proof {
        assert(spec_cmp_left(*doc, cmp.field, vars0) matches Some(p) && p.0 == left@ && p.1
            == details@);
    }
    if matches!(cmp.op, CompareOp::Exists) {
        let n = left.len();
        let mut i: usize = 0;
        while i < n
            invariant
                0 <= i <= n == left@.len(),
                ctx.vars@ == old(ctx).vars@,
                ctx.traces@ == t0 + spec_exists_traces(left@, i as int),
            decreases n - i,
        {
            let e = left[i];
            ctx.traces.push(
                MatchTrace {
                    op: CompareOp::Exists,
                    threshold: None,
                    result: e.0,
                    left_value: e.0,
                    left_tag: e.1,
                    right_value: None,
                    right_tag: None,
                    calc: None,
                },
            );
            proof {
                assert(ctx.traces@ =~= t0 + spec_exists_traces(left@, i as int + 1));
            }
            i = i + 1;
        }
        return left.len() > 0;
    }
    let right: Resolved = match &cmp.value {
        Some(v) => {
            match resolve_voc(doc, v, ctx) {
                Some(r) => r,
                None => {
                    proof {
                        assert(ctx.traces@ =~= t0 + sc.1);
                    }
                    return false;
                },
            }
        },
        None => {
            proof {
                assert(ctx.traces@ =~= t0 + sc.1);
            }
            return false;
        },
    };
    if right.len() == 0 || left.len() == 0 {
        proof {
            assert(ctx.traces@ =~= t0 + sc.1);
        }
        return false;
    }
    let mut hit = false;
    if matches!(cmp.op, CompareOp::In) {
        let n = left.len();
        let mut i: usize = 0;
        while i < n
            invariant
                0 <= i <= n == left@.len(),
                forall|k: int| 0 <= k < left@.len() ==> q_wf(#[trigger] left@[k].0),
                forall|k: int| 0 <= k < right@.len() ==> q_wf(#[trigger] right@[k].0),
                ctx.vars@ == old(ctx).vars@,
                ctx.traces@ == t0 + spec_in_traces(left@, right@, i as int),
                hit == (spec_in_traces(left@, right@, i as int).len() > 0),
            decreases n - i,
        {
            let e = left[i];
            let m = right.len();
            let mut j: usize = 0;
            let mut inside = false;
            while j < m && !inside
                invariant
                    0 <= j <= m == right@.len(),
                    q_wf(e.0),
                    forall|k: int| 0 <= k < right@.len() ==> q_wf(#[trigger] right@[k].0),
                    !inside ==> forall|k: int|
                        0 <= k < j ==> !crate::rational::q_approx_eq(
                            e.0,
                            (#[trigger] right@[k]).0,
                        ),
                    inside ==> spec_in_hit(e.0, right@),
                decreases m - j, (if inside { 0int } else { 1int }),
            {
                if e.0.approx_eq(right[j].0) {
                    proof {
                        assert(spec_in_hit(e.0, right@)) by {
                            assert(crate::rational::q_approx_eq(e.0, right@[j as int].0));
                        }
                    }
                    inside = true;
                } else {
                    j = j + 1;
                }
            }
            proof {
                assert(inside == spec_in_hit(e.0, right@));
            }
            if inside {
                hit = true;
                ctx.traces.push(
                    MatchTrace {
                        op: CompareOp::In,
                        threshold: None,
                        result: e.0,
                        left_value: e.0,
                        left_tag: e.1,
                        right_value: None,
                        right_tag: None,
                        calc: None,
                    },
                );
            }
            proof {
                assert(ctx.traces@ =~= t0 + spec_in_traces(left@, right@, i as int + 1));
            }
            i = i + 1;
        }
        return hit;
    }
    if right.len() == 1 || left.len() == right.len() {
        let broadcast_right = right.len() == 1;
        let n = left.len();
        let mut i: usize = 0;
        while i < n
            invariant
                0 <= i <= n == left@.len(),
                broadcast_right == (right@.len() == 1),
                !broadcast_right ==> right@.len() == left@.len(),
                forall|k: int| 0 <= k < left@.len() ==> q_wf(#[trigger] left@[k].0),
                forall|k: int| 0 <= k < right@.len() ==> q_wf(#[trigger] right@[k].0),
                details@ == spec_cmp_left(*doc, cmp.field, vars0).unwrap().1,
                !(cmp.op == CompareOp::In) && !(cmp.op == CompareOp::Exists),
                ctx.vars@ == old(ctx).vars@,
                ctx.traces@ == t0 + spec_numeric_traces(
                    left@,
                    right@,
                    details@,
                    cmp.op,
                    i as int,
                ),
                hit == (spec_numeric_traces(left@, right@, details@, cmp.op, i as int).len()
                    > 0),
            decreases n - i,
        {
            let e = left[i];
            let rv = if broadcast_right {
                right[0]
            } else {
                right[i]
            };
            if compare(e.0, cmp.op, rv.0) {
                hit = true;
                let calc: Option<ArithOp> = if i < details.len() {
                    Some(details[i].op)
                } else {
                    None
                };
                ctx.traces.push(
                    MatchTrace {
                        op: cmp.op,
                        threshold: Some(rv.0),
                        result: e.0,
                        left_value: e.0,
                        left_tag: e.1,
                        right_value: Some(rv.0),
                        right_tag: Some(rv.1),
                        calc,
                    },
                );
            }
            proof {
                assert(ctx.traces@ =~= t0 + spec_numeric_traces(
                    left@,
                    right@,
                    details@,
                    cmp.op,
                    i as int + 1,
                ));
            }
            i = i + 1;
        }
        return hit;
    }
    proof {
        assert(ctx.traces@ =~= t0 + sc.1);
    }
    false
}

/// The sum of the values of a resolved sequence, absent past the
/// representable range.
pub open spec fn spec_q_sum(v: Seq<(Q, Tag)>, n: int) -> Option<Q>
    decreases n,
{
    if n <= 0 || n > v.len() {
        Some(Q { num: 0, den: 1 })
    } else {
        match spec_q_sum(v, n - 1) {
            None => None,
            Some(acc) => spec_op_add(acc, v[n - 1].0),
        }
    }
}

/// A per-line aggregation function.
pub open spec fn spec_is_per_line(f: VectorOp) -> bool {
    f == VectorOp::AvgPerLine || f == VectorOp::MaxPerLine || f == VectorOp::MinPerLine || f
        == VectorOp::SumPerLine || f == VectorOp::CountPerLine
}

/// Height bound of a path list, the recursion measure of source
/// resolution.
pub open spec fn spec_src_height(paths: Seq<FieldPath>, n: int) -> nat
    decreases n,
{
    if n <= 0 || n > paths.len() {
        0
    } else if comp_height_path(paths[n - 1]) + 1 > spec_src_height(paths, n - 1) {
        comp_height_path(paths[n - 1]) + 1
    } else {
        spec_src_height(paths, n - 1)
    }
}

/// Every listed path sits strictly below the list's height bound.
proof fn lemma_src_height(paths: Seq<FieldPath>, n: int, i: int)
    requires
        0 <= i < n <= paths.len(),
    ensures
        comp_height_path(paths[i]) < spec_src_height(paths, n),
    decreases n,
{
    if i == n - 1 {
    } else {
        lemma_src_height(paths, n - 1, i);
    }
}

/// The resolved sources of a vector node, in order, valid odds only;
/// sources that fail to resolve are skipped.
pub open spec fn spec_vec_sources(
    doc: FilterDoc,
    paths: Seq<FieldPath>,
    vars: Seq<(String, Seq<(Q, Tag)>)>,
    n: int,
) -> Seq<Seq<(Q, Tag)>>
    decreases spec_src_height(paths, paths.len() as int), n,
{
    if n <= 0 || n > paths.len() {
        Seq::empty()
    } else {
        let rest = spec_vec_sources(doc, paths, vars, n - 1);
        match spec_resolve_field_capped(doc, paths[n - 1], vars, paths, n - 1) {
            Some(v) => rest.push(spec_filter_valid(v, v.len() as int)),
            None => rest,
        }
    }
}

/// `spec_resolve_field` at a listed path, callable under the list's height
/// bound.
pub open spec fn spec_resolve_field_capped(
    doc: FilterDoc,
    path: FieldPath,
    vars: Seq<(String, Seq<(Q, Tag)>)>,
    paths: Seq<FieldPath>,
    i: int,
) -> Option<Seq<(Q, Tag)>>
    decreases spec_src_height(paths, paths.len() as int), -1int,
    when 0 <= i < paths.len() && paths[i] == path
    via spec_resolve_field_capped_decreases
{
    spec_resolve_field(doc, path, vars)
}

#[via_fn]
proof fn spec_resolve_field_capped_decreases(
    doc: FilterDoc,
    path: FieldPath,
    vars: Seq<(String, Seq<(Q, Tag)>)>,
    paths: Seq<FieldPath>,
    i: int,
) {
    lemma_src_height(paths, paths.len() as int, i);
}

/// The concatenation of all sources.
pub open spec fn spec_concat_srcs(srcs: Seq<Seq<(Q, Tag)>>, n: int) -> Seq<(Q, Tag)>
    decreases n,
{
    if n <= 0 || n > srcs.len() {
        Seq::empty()
    } else {
        spec_concat_srcs(srcs, n - 1) + srcs[n - 1]
    }
}

/// The entries of one source at a line.
pub open spec fn spec_line_matches(src: Seq<(Q, Tag)>, line: i64, n: int) -> Seq<(Q, Tag)>
    decreases n,
{
    if n <= 0 || n > src.len() {
        Seq::empty()
    } else {
        let rest = spec_line_matches(src, line, n - 1);
        if src[n - 1].1.line == Some(line) {
            rest.push(src[n - 1])
        } else {
            rest
        }
    }
}

/// All sources' entries at a line, in source order.
pub open spec fn spec_gather_vals(srcs: Seq<Seq<(Q, Tag)>>, line: i64, n: int) -> Seq<(Q, Tag)>
    decreases n,
{
    if n <= 0 || n > srcs.len() {
        Seq::empty()
    } else {
        spec_gather_vals(srcs, line, n - 1) + spec_line_matches(
            srcs[n - 1],
            line,
            srcs[n - 1].len() as int,
        )
    }
}

/// Whether every source quotes the line.
pub open spec fn spec_gather_all(srcs: Seq<Seq<(Q, Tag)>>, line: i64, n: int) -> bool
    decreases n,
{
    if n <= 0 || n > srcs.len() {
        true
    } else {
        spec_gather_all(srcs, line, n - 1) && spec_line_matches(
            srcs[n - 1],
            line,
            srcs[n - 1].len() as int,
        ).len() > 0
    }
}

/// The output already carries the line.
pub open spec fn spec_out_has_line(out: Seq<(Q, Tag)>, line: i64) -> bool {
    exists|k: int| 0 <= k < out.len() && (#[trigger] out[k]).1.line == Some(line)
}

/// The per-line aggregation output: for each line of the first source, in
/// order and once, the aggregate of all sources' values at that line,
/// kept only when every source quotes it.
pub open spec fn spec_per_line_out(
    srcs: Seq<Seq<(Q, Tag)>>,
    f: VectorOp,
    first: Seq<(Q, Tag)>,
    n: int,
) -> Seq<(Q, Tag)>
    decreases n,
{
    if n <= 0 || n > first.len() {
        Seq::empty()
    } else {
        let rest = spec_per_line_out(srcs, f, first, n - 1);
        match first[n - 1].1.line {
            None => rest,
            Some(l) => if spec_out_has_line(rest, l) {
                rest
            } else {
                let vals = spec_gather_vals(srcs, l, srcs.len() as int);
                if spec_gather_all(srcs, l, srcs.len() as int) && vals.len() > 0 {
                    match spec_aggregate(vals, f) {
                        Some(q) => rest.push(
                            (q, Tag { book: None, field: first[n - 1].1.field, line: Some(l) }),
                        ),
                        None => rest,
                    }
                } else {
                    rest
                }
            },
        }
    }
}

/// The verdict of a vector node and the variable store it leaves: nothing
/// resolved, or nothing aggregated, is a non-match; a result is bound to
/// the node's variable.
pub open spec fn spec_eval_vector(
    doc: FilterDoc,
    v: VectorExpr,
    vars: Seq<(String, Seq<(Q, Tag)>)>,
) -> (bool, Seq<(String, Seq<(Q, Tag)>)>) {
    let srcs = spec_vec_sources(doc, v.source@, vars, v.source@.len() as int);
    if srcs.len() == 0 {
        (false, vars)
    } else if !spec_is_per_line(v.function) {
        let all = spec_concat_srcs(srcs, srcs.len() as int);
        if all.len() == 0 {
            (false, vars)
        } else {
            match spec_aggregate(all, v.function) {
                Some(q) => (
                    true,
                    spec_bind_opt(
                        vars,
                        v.as_var,
                        seq![(q, Tag { book: None, field: PathField::Literal, line: None })],
                    ),
                ),
                None => (false, vars),
            }
        }
    } else {
        let out = spec_per_line_out(srcs, v.function, srcs[0], srcs[0].len() as int);
        if out.len() == 0 {
            (false, vars)
        } else {
            (true, spec_bind_opt(vars, v.as_var, out))
        }
    }
}

/// Evaluates one vector node: the flat functions aggregate all valid odds
/// of all sources, the per-line functions aggregate per line over lines
/// common to every source; a result is bound to the node's variable.
fn eval_vector(doc: &FilterDoc, v: &VectorExpr, ctx: &mut EvalCtx) -> (res: bool)
    requires
        doc_wf(*doc),
    ensures
        final(ctx).traces@ == old(ctx).traces@,
        res == spec_eval_vector(*doc, *v, ctx_vars_view(*old(ctx))).0,
        ctx_vars_view(*final(ctx)) == spec_eval_vector(*doc, *v, ctx_vars_view(*old(ctx))).1,
{
    let ghost vars0 = ctx_vars_view(*ctx);
    let per_line = match v.function {
        VectorOp::AvgPerLine | VectorOp::MaxPerLine | VectorOp::MinPerLine | VectorOp::SumPerLine
            | VectorOp::CountPerLine => true,
        _ => false,
    };
    // resolve every source, keeping valid odds
    let mut sources: Vec<Resolved> = Vec::new();
    let ghost srcs = spec_vec_sources(*doc, v.source@, vars0, v.source@.len() as int);
    let n = v.source.len();
    let mut i: usize = 0;
    while i < n
        invariant
            0 <= i <= n == v.source@.len(),
            doc_wf(*doc),
            ctx.traces@ == old(ctx).traces@,
            ctx.vars@ == old(ctx).vars@,
            vars0 == ctx_vars_view(*ctx),
            sources@.map_values(|w: Resolved| w@) == spec_vec_sources(
                *doc,
                v.source@,
                vars0,
                i as int,
            ),
            forall|s: int, k: int|
                0 <= s < sources@.len() && 0 <= k < sources@[s]@.len() ==> q_wf(
                    #[trigger] sources@[s]@[k].0,
                ),
        decreases n - i,
    {
        match resolve_field(doc, &v.source[i], ctx) {
            Some(r) => {
                let f = filter_valid(&r);
                sources.push(f);
            },
            None => {},
        }
        proof {
            assert(sources@.map_values(|w: Resolved| w@) =~= spec_vec_sources(
                *doc,
                v.source@,
                vars0,
                i as int + 1,
            ));
        }
        i = i + 1;
    }
    let ghost srcviews = sources@.map_values(|w: Resolved| w@);
    if sources.len() == 0 {
        return false;
    }
    if !per_line {
        // flatten
        let mut all: Resolved = Vec::new();
        let m = sources.len();
        let mut s: usize = 0;
        while s < m
            invariant
                0 <= s <= m == sources@.len(),
                srcviews == sources@.map_values(|w: Resolved| w@),
                all@ == spec_concat_srcs(srcviews, s as int),
                forall|a: int, k: int|
                    0 <= a < sources@.len() && 0 <= k < sources@[a]@.len() ==> q_wf(
                        #[trigger] sources@[a]@[k].0,
                    ),
                forall|k: int| 0 <= k < all@.len() ==> q_wf(#[trigger] all@[k].0),
            decreases m - s,
        {
            let mut c = clone_resolved(&sources[s]);
            append_resolved(&mut all, &mut c);
            proof {
                assert(all@ =~= spec_concat_srcs(srcviews, s as int + 1));
                assert forall|k: int| 0 <= k < all@.len() implies q_wf(
                    #[trigger] all@[k].0,
                ) by {
                    if k >= all@.len() - sources@[s as int]@.len() {
                        assert(all@[k] == sources@[s as int]@[k - (all@.len()
                            - sources@[s as int]@.len())]);
                    }
                }
            }
            s = s + 1;
        }
        if all.len() == 0 {
            return false;
        }
        let agg: Option<Q> = aggregate(&all, v.function);
        match agg {
            Some(q) => {
                bind_var(ctx, &v.as_var, q);
                true
            },
            None => false,
        }
    } else {
        // lines present in every source
        let first = clone_resolved(&sources[0]);
        let mut out: Resolved = Vec::new();
        let fl = first.len();
        let mut i2: usize = 0;
        while i2 < fl
            invariant
                0 <= i2 <= fl == first@.len(),
                sources@.len() > 0,
                first@ == srcviews[0],
                srcviews == sources@.map_values(|w: Resolved| w@),
                ctx.traces@ == old(ctx).traces@,
                ctx.vars@ == old(ctx).vars@,
                out@ == spec_per_line_out(srcviews, v.function, first@, i2 as int),
                forall|k: int| 0 <= k < first@.len() ==> q_wf(#[trigger] first@[k].0),
                forall|a: int, k: int|
                    0 <= a < sources@.len() && 0 <= k < sources@[a]@.len() ==> q_wf(
                        #[trigger] sources@[a]@[k].0,
                    ),
                forall|k: int| 0 <= k < out@.len() ==> q_wf(#[trigger] out@[k].0),
            decreases fl - i2,
        {
            match first[i2].1.line {
                Some(line) => {
                    if !line_done(&out, line) {
                        // gather this line's values across all sources
                        let mut vals: Resolved = Vec::new();
                        let mut everywhere = true;
                        let m = sources.len();
                        let mut s: usize = 0;
                        while s < m
                            invariant
                                0 <= s <= m == sources@.len(),
                                srcviews == sources@.map_values(|w: Resolved| w@),
                                vals@ == spec_gather_vals(srcviews, line, s as int),
                                everywhere == spec_gather_all(srcviews, line, s as int),
                                forall|a: int, k: int|
                                    0 <= a < sources@.len() && 0 <= k < sources@[a]@.len()
                                        ==> q_wf(#[trigger] sources@[a]@[k].0),
                                forall|k: int| 0 <= k < vals@.len() ==> q_wf(
                                    #[trigger] vals@[k].0,
                                ),
                            decreases m - s,
                        {
                            let mut found = false;
                            let sl = sources[s].len();
                            let ghost vpre = vals@;
                            let mut k: usize = 0;
                            while k < sl
                                invariant
                                    0 <= k <= sl == sources@[s as int]@.len(),
                                    s < sources@.len(),
                                    vals@ == vpre + spec_line_matches(
                                        sources@[s as int]@,
                                        line,
                                        k as int,
                                    ),
                                    found == (spec_line_matches(
                                        sources@[s as int]@,
                                        line,
                                        k as int,
                                    ).len() > 0),
                                    forall|a: int, t: int|
                                        0 <= a < sources@.len() && 0 <= t < sources@[a]@.len()
                                            ==> q_wf(#[trigger] sources@[a]@[t].0),
                                    forall|t: int| 0 <= t < vals@.len() ==> q_wf(
                                        #[trigger] vals@[t].0,
                                    ),
                                decreases sl - k,
                            {
                                let e = sources[s][k];
                                let same = match e.1.line {
                                    Some(l2) => l2 == line,
                                    None => false,
                                };
                                if same {
                                    found = true;
                                    vals.push(e);
                                }
                                proof {
                                    assert(vals@ =~= vpre + spec_line_matches(
                                        sources@[s as int]@,
                                        line,
                                        k as int + 1,
                                    ));
                                }
                                k = k + 1;
                            }
                            if !found {
                                everywhere = false;
                            }
                            proof {
                                assert(vals@ =~= spec_gather_vals(
                                    srcviews,
                                    line,
                                    s as int + 1,
                                ));
                            }
                            s = s + 1;
                        }
                        if everywhere && vals.len() > 0 {
                            match aggregate(&vals, v.function) {
                                Some(q) => {
                                    out.push(
                                        (
                                            q,
                                            Tag {
                                                book: None,
                                                field: first[i2].1.field,
                                                line: Some(line),
                                            },
                                        ),
                                    );
                                },
                                None => {},
                            }
                        }
                    }
                },
                None => {},
            }
            proof {
                assert(out@ =~= spec_per_line_out(
                    srcviews,
                    v.function,
                    first@,
                    i2 as int + 1,
                ));
            }
            i2 = i2 + 1;
        }
        if out.len() == 0 {
            return false;
        }
        bind_var_resolved(ctx, &v.as_var, out);
        true
    }
}


/// Whether the per-line output already carries an entry for the line.
fn line_done(out: &Resolved, line: i64) -> (r: bool)
    ensures
        r == exists|k: int| 0 <= k < out@.len() && (#[trigger] out@[k]).1.line == Some(line),
{
    let n = out.len();
    let mut i: usize = 0;
    while i < n
        invariant
            0 <= i <= n == out@.len(),
            forall|k: int| 0 <= k < i ==> (#[trigger] out@[k]).1.line != Some(line),
        decreases n - i,
    {
        let l = out[i].1.line;
        let same = match l {
            Some(l2) => l2 == line,
            None => false,
        };
        if same {
            proof {
                assert((out@[i as int]).1.line == Some(line));
            }
            return true;
        }
        i = i + 1;
    }
    false
}

/// The running maximum of a value sequence, first occurrence winning ties.
pub open spec fn spec_q_max(v: Seq<(Q, Tag)>, n: int) -> Q
    decreases n,
{
    if n <= 1 || n > v.len() {
        if v.len() > 0 {
            v[0].0
        } else {
            Q { num: 0, den: 1 }
        }
    } else {
        let best = spec_q_max(v, n - 1);
        if crate::rational::q_lt(best, v[n - 1].0) {
            v[n - 1].0
        } else {
            best
        }
    }
}

/// The running minimum of a value sequence, first occurrence winning ties.
pub open spec fn spec_q_min(v: Seq<(Q, Tag)>, n: int) -> Q
    decreases n,
{
    if n <= 1 || n > v.len() {
        if v.len() > 0 {
            v[0].0
        } else {
            Q { num: 0, den: 1 }
        }
    } else {
        let best = spec_q_min(v, n - 1);
        if crate::rational::q_lt(v[n - 1].0, best) {
            v[n - 1].0
        } else {
            best
        }
    }
}

/// One flat aggregation over a non-empty value sequence, as a function.
pub open spec fn spec_aggregate(vals: Seq<(Q, Tag)>, f: VectorOp) -> Option<Q> {
    match f {
        VectorOp::Sum | VectorOp::SumPerLine => spec_q_sum(vals, vals.len() as int),
        VectorOp::Count | VectorOp::CountPerLine => if vals.len()
            <= crate::rational::Q_BOUND {
            Some(Q { num: vals.len() as i64, den: 1 })
        } else {
            None
        },
        VectorOp::Avg | VectorOp::AvgPerLine => match spec_q_sum(vals, vals.len() as int) {
            Some(s) => if vals.len() <= crate::rational::Q_BOUND {
                spec_op_div(s, Q { num: vals.len() as i64, den: 1 })
            } else {
                None
            },
            None => None,
        },
        VectorOp::Max | VectorOp::MaxPerLine => Some(spec_q_max(vals, vals.len() as int)),
        VectorOp::Min | VectorOp::MinPerLine => Some(spec_q_min(vals, vals.len() as int)),
    }
}

/// One flat aggregation over a non-empty value sequence: average, maximum,
/// minimum, sum or count, exactly over rationals.
fn aggregate(vals: &Resolved, f: VectorOp) -> (r: Option<Q>)
    requires
        vals@.len() > 0,
        forall|k: int| 0 <= k < vals@.len() ==> q_wf(#[trigger] vals@[k].0),
    ensures
        r == spec_aggregate(vals@, f),
        r matches Some(q) ==> q_wf(q),
        (f == VectorOp::Sum || f == VectorOp::SumPerLine) ==> r == spec_q_sum(
            vals@,
            vals@.len() as int,
        ),
        (f == VectorOp::Count || f == VectorOp::CountPerLine) ==> (
        if vals@.len() <= crate::rational::Q_BOUND {
            r == Some(Q { num: vals@.len() as i64, den: 1 })
        } else {
            r is None
        }),
        (f == VectorOp::Avg || f == VectorOp::AvgPerLine) ==> r == (match spec_q_sum(
            vals@,
            vals@.len() as int,
        ) {
            Some(s) => if vals@.len() <= crate::rational::Q_BOUND {
                spec_op_div(s, Q { num: vals@.len() as i64, den: 1 })
            } else {
                None
            },
            None => None,
        }),
        (f == VectorOp::Max || f == VectorOp::MaxPerLine) ==> (r matches Some(q) && (exists|
            k: int,
        |
            0 <= k < vals@.len() && (#[trigger] vals@[k]).0 == q) && (forall|k: int|
            0 <= k < vals@.len() ==> crate::rational::q_le((#[trigger] vals@[k]).0, q))),
        (f == VectorOp::Min || f == VectorOp::MinPerLine) ==> (r matches Some(q) && (exists|
            k: int,
        |
            0 <= k < vals@.len() && (#[trigger] vals@[k]).0 == q) && (forall|k: int|
            0 <= k < vals@.len() ==> crate::rational::q_le(q, (#[trigger] vals@[k]).0))),
{
    match f {
        VectorOp::Sum | VectorOp::SumPerLine => q_sum(vals),
        VectorOp::Count | VectorOp::CountPerLine => {
            if vals.len() as u64 <= crate::rational::Q_BOUND as u64 {
                Some(Q { num: vals.len() as i64, den: 1 })
            } else {
                None
            }
        },
        VectorOp::Avg | VectorOp::AvgPerLine => {
            let s = match q_sum(vals) {
                Some(s) => s,
                None => {
                    return None;
                },
            };
            if vals.len() as u64 > crate::rational::Q_BOUND as u64 {
                return None;
            }
            let cnt = Q { num: vals.len() as i64, den: 1 };
            s.div(cnt)
        },
        VectorOp::Max | VectorOp::MaxPerLine => {
            let mut best = vals[0].0;
            let n = vals.len();
            let mut i: usize = 1;
            while i < n
                invariant
                    1 <= i <= n == vals@.len(),
                    q_wf(best),
                    forall|k: int| 0 <= k < vals@.len() ==> q_wf(#[trigger] vals@[k].0),
                    exists|k: int| 0 <= k < i && (#[trigger] vals@[k]).0 == best,
                    forall|k: int|
                        0 <= k < i ==> crate::rational::q_le((#[trigger] vals@[k]).0, best),
                    best == spec_q_max(vals@, i as int),
                decreases n - i,
    {
                let cur = vals[i].0;
                if best.lt(cur) {
                    proof {
                        assert forall|k: int|
                            0 <= k < i + 1 implies crate::rational::q_le(
                            (#[trigger] vals@[k]).0,
                            cur,
                        ) by {
                            if k < i {
                                crate::rational::lemma_q_le_trans(vals@[k].0, best, cur);
                            }
                        }
                        assert((vals@[i as int]).0 == cur);
                    }
                    best = cur;
                } else {
                    proof {
                        assert((vals@[i as int]).0 == cur);
                    }
                }
                i = i + 1;
            }
            Some(best)
        },
        VectorOp::Min | VectorOp::MinPerLine => {
            let mut best = vals[0].0;
            let n = vals.len();
            let mut i: usize = 1;
            while i < n
                invariant
                    1 <= i <= n == vals@.len(),
                    q_wf(best),
                    forall|k: int| 0 <= k < vals@.len() ==> q_wf(#[trigger] vals@[k].0),
                    exists|k: int| 0 <= k < i && (#[trigger] vals@[k]).0 == best,
                    forall|k: int|
                        0 <= k < i ==> crate::rational::q_le(best, (#[trigger] vals@[k]).0),
                    best == spec_q_min(vals@, i as int),
                decreases n - i,
            {
                let cur = vals[i].0;
                if cur.lt(best) {
                    proof {
                        assert forall|k: int|
                            0 <= k < i + 1 implies crate::rational::q_le(
                            cur,
                            (#[trigger] vals@[k]).0,
                        ) by {
                            if k < i {
                                crate::rational::lemma_q_le_trans(cur, best, vals@[k].0);
                            }
                        }
                        assert((vals@[i as int]).0 == cur);
                    }
                    best = cur;
                } else {
                    proof {
                        assert((vals@[i as int]).0 == cur);
                    }
                }
                i = i + 1;
            }
            Some(best)
        },
    }
}

/// Sums a value sequence exactly.
fn q_sum(vals: &Resolved) -> (r: Option<Q>)
    requires
        forall|k: int| 0 <= k < vals@.len() ==> q_wf(#[trigger] vals@[k].0),
    ensures
        r == spec_q_sum(vals@, vals@.len() as int),
        r matches Some(q) ==> q_wf(q),
{
    let mut acc = Q { num: 0, den: 1 };
    let n = vals.len();
    let mut i: usize = 0;
    while i < n
        invariant
            0 <= i <= n == vals@.len(),
            forall|k: int| 0 <= k < vals@.len() ==> q_wf(#[trigger] vals@[k].0),
            Some(acc) == spec_q_sum(vals@, i as int),
            q_wf(acc),
        decreases n - i,
    {
        match acc.add(vals[i].0) {
            Some(next) => {
                acc = next;
            },
            None => {
                proof {
                    lemma_sum_none(vals@, i as int + 1, vals@.len() as int);
                }
                return None;
            },
        }
        i = i + 1;
    }
    Some(acc)
}

/// Once a partial sum is absent, every longer sum is absent.
proof fn lemma_sum_none(v: Seq<(Q, Tag)>, i: int, n: int)
    requires
        0 < i <= n <= v.len(),
        spec_q_sum(v, i) is None,
    ensures
        spec_q_sum(v, n) is None,
    decreases n - i,
{
    if i < n {
        lemma_sum_none(v, i + 1, n);
    }
}

/// A variable store after binding `vals` under `name`: the first binding
/// under the name is replaced, a fresh name is appended.
pub open spec fn spec_bind(
    vars: Seq<(String, Seq<(Q, Tag)>)>,
    name: String,
    vals: Seq<(Q, Tag)>,
) -> Seq<(String, Seq<(Q, Tag)>)> {
    let p = spec_var_pos(vars, name@);
    if p < vars.len() {
        vars.update(p, (name, vals))
    } else {
        vars.push((name, vals))
    }
}

/// A variable store after an optional binding.
pub open spec fn spec_bind_opt(
    vars: Seq<(String, Seq<(Q, Tag)>)>,
    name: Option<String>,
    vals: Seq<(Q, Tag)>,
) -> Seq<(String, Seq<(Q, Tag)>)> {
    match name {
        Some(nm) => spec_bind(vars, nm, vals),
        None => vars,
    }
}

/// Binds a single value under a variable name, replacing any prior
/// binding.
fn bind_var(ctx: &mut EvalCtx, name: &Option<String>, q: Q)
    ensures
        final(ctx).traces@ == old(ctx).traces@,
        ctx_vars_view(*final(ctx)) == spec_bind_opt(
            ctx_vars_view(*old(ctx)),
            *name,
            seq![(q, Tag { book: None, field: PathField::Literal, line: None })],
        ),
{
    match name {
        Some(nm) => {
            let mut v: Resolved = Vec::new();
            v.push((q, Tag { book: None, field: PathField::Literal, line: None }));
            proof {
                assert(v@ =~= seq![
                    (q, Tag { book: None, field: PathField::Literal, line: None }),
                ]);
            }
            bind_var_resolved(ctx, &Some(nm.clone()), v);
        },
        None => {},
    }
}

/// Binds a resolved sequence under a variable name, replacing any prior
/// binding.
fn bind_var_resolved(ctx: &mut EvalCtx, name: &Option<String>, v: Resolved)
    ensures
        final(ctx).traces@ == old(ctx).traces@,
        ctx_vars_view(*final(ctx)) == spec_bind_opt(ctx_vars_view(*old(ctx)), *name, v@),
{
    match name {
        Some(nm) => {
            let ghost vv0 = ctx_vars_view(*ctx);
            let n = ctx.vars.len();
            let mut i: usize = 0;
            while i < n
                invariant
                    0 <= i <= n,
                    n == ctx.vars@.len(),
                    ctx.traces@ == old(ctx).traces@,
                    vv0 == ctx_vars_view(*ctx),
                    vv0 == ctx_vars_view(*old(ctx)),
                    *name == Some(*nm),
                    forall|k: int| 0 <= k < i ==> (#[trigger] vv0[k]).0@ != nm@,
                decreases n - i,
            {
                proof {
                    assert(vv0[i as int] == (ctx.vars@[i as int].0, ctx.vars@[i as int].1@));
                }
                if crate::strutil::str_eq(ctx.vars[i].0.as_str(), nm.as_str()) {
                    proof {
                        lemma_var_pos(vv0, nm@, i as int);
                    }
                    let name2 = nm.clone();
                    let ghost vsnap = v@;
                    ctx.vars.set(i, (name2, v));
                    proof {
                        assert(ctx_vars_view(*ctx) =~= vv0.update(i as int, (*nm, vsnap)));
                        assert(*name == Some(*nm));
                        assert(spec_bind_opt(ctx_vars_view(*old(ctx)), *name, vsnap)
                            == vv0.update(i as int, (*nm, vsnap)));
                    }
                    return ;
                }
                i = i + 1;
            }
            proof {
                lemma_var_pos(vv0, nm@, n as int);
            }
            ctx.vars.push((nm.clone(), v));
            proof {
                assert(ctx_vars_view(*ctx) =~= vv0.push((*nm, v@)));
            }
        },
        None => {},
    }
}

} // verus!
verus! {

/// The distinct lines of the traces from `from` on, in first-appearance
/// order.
pub open spec fn spec_trace_lines(traces: Seq<MatchTrace>, from: int, n: int) -> Seq<i64>
    decreases n - from,
{
    if n <= from || n > traces.len() || from < 0 {
        Seq::empty()
    } else {
        let rest = spec_trace_lines(traces, from, n - 1);
        match traces[n - 1].left_tag.line {
            Some(l) => if rest.contains(l) {
                rest
            } else {
                rest.push(l)
            },
            None => rest,
        }
    }
}

/// The set of lines at which the traces collected by one condition
/// matched.
fn trace_lines(traces: &Vec<MatchTrace>, from: usize) -> (r: Vec<i64>)
    requires
        from <= traces@.len(),
    ensures
        r@ == spec_trace_lines(traces@, from as int, traces@.len() as int),
{
    let mut r: Vec<i64> = Vec::new();
    let n = traces.len();
    let mut i: usize = from;
    while i < n
        invariant
            from <= i <= n == traces@.len(),
            r@ == spec_trace_lines(traces@, from as int, i as int),
        decreases n - i,
    {
        match traces[i].left_tag.line {
            Some(l) => {
                if !contains_line(&r, l) {
                    r.push(l);
                }
            },
            None => {},
        }
        proof {
            assert(r@ =~= spec_trace_lines(traces@, from as int, i as int + 1));
        }
        i = i + 1;
    }
    r
}

/// Membership of a line in a plain line list.
fn contains_line(v: &Vec<i64>, line: i64) -> (r: bool)
    ensures
        r == v@.contains(line),
{
    let n = v.len();
    let mut i: usize = 0;
    while i < n
        invariant
            0 <= i <= n == v@.len(),
            forall|k: int| 0 <= k < i ==> v@[k] != line,
        decreases n - i,
    {
        if v[i] == line {
            proof {
                assert(v@.contains(line)) by {
                    assert(v@[i as int] == line);
                }
            }
            return true;
        }
        i = i + 1;
    }
    proof {
        if v@.contains(line) {
            let k = choose|k: int| 0 <= k < v@.len() && v@[k] == line;
            assert(v@[k] != line);
        }
    }
    false
}

/// The lines of `a` also in `b`, deduplicated, in `a`'s order.
pub open spec fn spec_intersect(a: Seq<i64>, b: Seq<i64>, n: int) -> Seq<i64>
    decreases n,
{
    if n <= 0 || n > a.len() {
        Seq::empty()
    } else {
        let rest = spec_intersect(a, b, n - 1);
        if b.contains(a[n - 1]) && !rest.contains(a[n - 1]) {
            rest.push(a[n - 1])
        } else {
            rest
        }
    }
}

/// The lines common to both lists.
fn intersect_lines(a: &Vec<i64>, b: &Vec<i64>) -> (r: Vec<i64>)
    ensures
        r@ == spec_intersect(a@, b@, a@.len() as int),
{
    let mut r: Vec<i64> = Vec::new();
    let n = a.len();
    let mut i: usize = 0;
    while i < n
        invariant
            0 <= i <= n == a@.len(),
            r@ == spec_intersect(a@, b@, i as int),
        decreases n - i,
    {
        let l = a[i];
        if contains_line(b, l) && !contains_line(&r, l) {
            r.push(l);
        }
        proof {
            assert(r@ =~= spec_intersect(a@, b@, i as int + 1));
        }
        i = i + 1;
    }
    r
}

/// The full evaluation state: verdict, variable store, traces.
pub open spec fn spec_evaluate(
    doc: FilterDoc,
    e: FilterExpr,
    vars: Seq<(String, Seq<(Q, Tag)>)>,
    traces: Seq<MatchTrace>,
) -> (bool, Seq<(String, Seq<(Q, Tag)>)>, Seq<MatchTrace>)
    decreases expr_height(e), 1nat, 0nat,
{
    match e {
        FilterExpr::And(list) => spec_eval_and(doc, list@, list@.len() as int, vars, traces),
        FilterExpr::Or(list) => spec_eval_or(doc, list@, list@.len() as int, vars, traces),
        FilterExpr::Not(b) => {
            let r = spec_evaluate(doc, *b, vars, traces);
            (!r.0, r.1, r.2)
        },
        FilterExpr::PerLineAnd(list) => spec_eval_pla(doc, list@, vars, traces),
        FilterExpr::Compare(c) => {
            let sc = spec_eval_compare(doc, c, vars);
            (sc.0, vars, traces + sc.1)
        },
        FilterExpr::Vector(v) => {
            let sv = spec_eval_vector(doc, v, vars);
            (sv.0, sv.1, traces)
        },
    }
}

/// Conjunction over the first `n` children, short-circuiting left to
/// right: evaluation stops at the first false child, whose state stands.
pub open spec fn spec_eval_and(
    doc: FilterDoc,
    list: Seq<FilterExpr>,
    n: int,
    vars: Seq<(String, Seq<(Q, Tag)>)>,
    traces: Seq<MatchTrace>,
) -> (bool, Seq<(String, Seq<(Q, Tag)>)>, Seq<MatchTrace>)
    decreases list_height(list, list.len() as int), 0nat, n,
    when 0 <= n <= list.len()
    via spec_eval_and_decreases
{
    if n <= 0 {
        (true, vars, traces)
    } else {
        let prev = spec_eval_and(doc, list, n - 1, vars, traces);
        if !prev.0 {
            prev
        } else {
            spec_evaluate(doc, list[n - 1], prev.1, prev.2)
        }
    }
}

#[via_fn]
proof fn spec_eval_and_decreases(
    doc: FilterDoc,
    list: Seq<FilterExpr>,
    n: int,
    vars: Seq<(String, Seq<(Q, Tag)>)>,
    traces: Seq<MatchTrace>,
) {
    if 0 < n <= list.len() {
        lemma_list_height(list, list.len() as int, n - 1);
    }
}

/// Disjunction over the first `n` children, short-circuiting left to
/// right: evaluation stops at the first true child, whose state stands.
pub open spec fn spec_eval_or(
    doc: FilterDoc,
    list: Seq<FilterExpr>,
    n: int,
    vars: Seq<(String, Seq<(Q, Tag)>)>,
    traces: Seq<MatchTrace>,
) -> (bool, Seq<(String, Seq<(Q, Tag)>)>, Seq<MatchTrace>)
    decreases list_height(list, list.len() as int), 0nat, n,
    when 0 <= n <= list.len()
    via spec_eval_or_decreases
{
    if n <= 0 {
        (false, vars, traces)
    } else {
        let prev = spec_eval_or(doc, list, n - 1, vars, traces);
        if prev.0 {
            prev
        } else {
            spec_evaluate(doc, list[n - 1], prev.1, prev.2)
        }
    }
}

#[via_fn]
proof fn spec_eval_or_decreases(
    doc: FilterDoc,
    list: Seq<FilterExpr>,
    n: int,
    vars: Seq<(String, Seq<(Q, Tag)>)>,
    traces: Seq<MatchTrace>,
) {
    if 0 < n <= list.len() {
        lemma_list_height(list, list.len() as int, n - 1);
    }
}

/// The per-line conjunction over the first `n` children: every child must
/// hold, each line-matched child narrowing the set of common lines.
pub open spec fn spec_eval_pla_fold(
    doc: FilterDoc,
    list: Seq<FilterExpr>,
    n: int,
    vars: Seq<(String, Seq<(Q, Tag)>)>,
    traces: Seq<MatchTrace>,
) -> (bool, Seq<(String, Seq<(Q, Tag)>)>, Seq<MatchTrace>, Option<Seq<i64>>)
    decreases list_height(list, list.len() as int), 0nat, n,
    when 0 <= n <= list.len()
    via spec_eval_pla_fold_decreases
{
    if n <= 0 {
        (true, vars, traces, None::<Seq<i64>>)
    } else {
        let prev = spec_eval_pla_fold(doc, list, n - 1, vars, traces);
        if !prev.0 {
            prev
        } else {
            let r = spec_evaluate(doc, list[n - 1], prev.1, prev.2);
            if !r.0 {
                (false, r.1, r.2, prev.3)
            } else {
                let lines = spec_trace_lines(r.2, prev.2.len() as int, r.2.len() as int);
                let common = if lines.len() > 0 {
                    match prev.3 {
                        None => Some(lines),
                        Some(c) => Some(spec_intersect(c, lines, c.len() as int)),
                    }
                } else {
                    prev.3
                };
                (true, r.1, r.2, common)
            }
        }
    }
}

#[via_fn]
proof fn spec_eval_pla_fold_decreases(
    doc: FilterDoc,
    list: Seq<FilterExpr>,
    n: int,
    vars: Seq<(String, Seq<(Q, Tag)>)>,
    traces: Seq<MatchTrace>,
) {
    if 0 < n <= list.len() {
        lemma_list_height(list, list.len() as int, n - 1);
    }
}

/// The per-line conjunction: true when every child holds and the children
/// that matched at specific lines share one, the traces then pruned to the
/// common lines; children without line matches count at every line.
pub open spec fn spec_eval_pla(
    doc: FilterDoc,
    list: Seq<FilterExpr>,
    vars: Seq<(String, Seq<(Q, Tag)>)>,
    traces: Seq<MatchTrace>,
) -> (bool, Seq<(String, Seq<(Q, Tag)>)>, Seq<MatchTrace>)
    decreases list_height(list, list.len() as int), 0nat, list.len() as int + 1,
{
    let r = spec_eval_pla_fold(doc, list, list.len() as int, vars, traces);
    if !r.0 {
        (false, r.1, r.2)
    } else {
        match r.3 {
            None => (true, r.1, r.2),
            Some(c) => if c.len() == 0 {
                (false, r.1, r.2)
            } else {
                (
                    true,
                    r.1,
                    r.2.take(traces.len() as int) + spec_prune(
                        r.2,
                        traces.len() as int,
                        c,
                        r.2.len() as int,
                    ),
                )
            },
        }
    }
}

/// A false conjunction prefix freezes the fold.
proof fn lemma_and_stuck(
    doc: FilterDoc,
    list: Seq<FilterExpr>,
    m: int,
    n: int,
    vars: Seq<(String, Seq<(Q, Tag)>)>,
    traces: Seq<MatchTrace>,
)
    requires
        0 <= m <= n <= list.len(),
        !spec_eval_and(doc, list, m, vars, traces).0,
    ensures
        spec_eval_and(doc, list, n, vars, traces) == spec_eval_and(doc, list, m, vars, traces),
    decreases n - m,
{
    if m < n {
        lemma_and_stuck(doc, list, m, n - 1, vars, traces);
    }
}

/// A true disjunction prefix freezes the fold.
proof fn lemma_or_stuck(
    doc: FilterDoc,
    list: Seq<FilterExpr>,
    m: int,
    n: int,
    vars: Seq<(String, Seq<(Q, Tag)>)>,
    traces: Seq<MatchTrace>,
)
    requires
        0 <= m <= n <= list.len(),
        spec_eval_or(doc, list, m, vars, traces).0,
    ensures
        spec_eval_or(doc, list, n, vars, traces) == spec_eval_or(doc, list, m, vars, traces),
    decreases n - m,
{
    if m < n {
        lemma_or_stuck(doc, list, m, n - 1, vars, traces);
    }
}

/// A failed per-line child freezes the fold.
proof fn lemma_pla_stuck(
    doc: FilterDoc,
    list: Seq<FilterExpr>,
    m: int,
    n: int,
    vars: Seq<(String, Seq<(Q, Tag)>)>,
    traces: Seq<MatchTrace>,
)
    requires
        0 <= m <= n <= list.len(),
        !spec_eval_pla_fold(doc, list, m, vars, traces).0,
    ensures
        spec_eval_pla_fold(doc, list, n, vars, traces) == spec_eval_pla_fold(
            doc,
            list,
            m,
            vars,
            traces,
        ),
    decreases n - m,
{
    if m < n {
        lemma_pla_stuck(doc, list, m, n - 1, vars, traces);
    }
}

/// Evaluation never shortens the traces it was handed.
proof fn lemma_eval_grow(
    doc: FilterDoc,
    e: FilterExpr,
    vars: Seq<(String, Seq<(Q, Tag)>)>,
    traces: Seq<MatchTrace>,
)
    ensures
        spec_evaluate(doc, e, vars, traces).2.len() >= traces.len(),
    decreases expr_height(e), 1nat, 0nat,
{
    match e {
        FilterExpr::And(list) => {
            lemma_and_grow(doc, list@, list@.len() as int, vars, traces);
        },
        FilterExpr::Or(list) => {
            lemma_or_grow(doc, list@, list@.len() as int, vars, traces);
        },
        FilterExpr::Not(b) => {
            lemma_eval_grow(doc, *b, vars, traces);
        },
        FilterExpr::PerLineAnd(list) => {
            lemma_pla_grow(doc, list@, list@.len() as int, vars, traces);
        },
        FilterExpr::Compare(_) => {},
        FilterExpr::Vector(_) => {},
    }
}

/// The conjunction fold never shortens the traces.
proof fn lemma_and_grow(
    doc: FilterDoc,
    list: Seq<FilterExpr>,
    n: int,
    vars: Seq<(String, Seq<(Q, Tag)>)>,
    traces: Seq<MatchTrace>,
)
    requires
        0 <= n <= list.len(),
    ensures
        spec_eval_and(doc, list, n, vars, traces).2.len() >= traces.len(),
    decreases list_height(list, list.len() as int), 0nat, n,
{
    if n > 0 {
        lemma_and_grow(doc, list, n - 1, vars, traces);
        let prev = spec_eval_and(doc, list, n - 1, vars, traces);
        if prev.0 {
            lemma_list_height(list, list.len() as int, n - 1);
            lemma_eval_grow(doc, list[n - 1], prev.1, prev.2);
        }
    }
}

/// The disjunction fold never shortens the traces.
proof fn lemma_or_grow(
    doc: FilterDoc,
    list: Seq<FilterExpr>,
    n: int,
    vars: Seq<(String, Seq<(Q, Tag)>)>,
    traces: Seq<MatchTrace>,
)
    requires
        0 <= n <= list.len(),
    ensures
        spec_eval_or(doc, list, n, vars, traces).2.len() >= traces.len(),
    decreases list_height(list, list.len() as int), 0nat, n,
{
    if n > 0 {
        lemma_or_grow(doc, list, n - 1, vars, traces);
        let prev = spec_eval_or(doc, list, n - 1, vars, traces);
        if !prev.0 {
            lemma_list_height(list, list.len() as int, n - 1);
            lemma_eval_grow(doc, list[n - 1], prev.1, prev.2);
        }
    }
}

/// The per-line fold never shortens the traces, and neither does the
/// pruned result.
proof fn lemma_pla_grow(
    doc: FilterDoc,
    list: Seq<FilterExpr>,
    n: int,
    vars: Seq<(String, Seq<(Q, Tag)>)>,
    traces: Seq<MatchTrace>,
)
    requires
        0 <= n <= list.len(),
    ensures
        spec_eval_pla_fold(doc, list, n, vars, traces).2.len() >= traces.len(),
        n == list.len() ==> spec_eval_pla(doc, list, vars, traces).2.len() >= traces.len(),
    decreases list_height(list, list.len() as int), 0nat, n,
{
    if n > 0 {
        lemma_pla_grow(doc, list, n - 1, vars, traces);
        let prev = spec_eval_pla_fold(doc, list, n - 1, vars, traces);
        if prev.0 {
            lemma_list_height(list, list.len() as int, n - 1);
            lemma_eval_grow(doc, list[n - 1], prev.1, prev.2);
        }
    }
    if n == list.len() {
        let r = spec_eval_pla_fold(doc, list, n, vars, traces);
        if r.0 {
            match r.3 {
                Some(c) => {
                    if c.len() > 0 {
                        assert(r.2.take(traces.len() as int).len() == traces.len());
                    }
                },
                None => {},
            }
        }
    }
}

/// The traces from `start` on, kept only at a line of the common set;
/// line-agnostic traces stay.
pub open spec fn spec_prune(traces: Seq<MatchTrace>, start: int, c: Seq<i64>, n: int) -> Seq<
    MatchTrace,
>
    decreases n - start,
{
    if n <= start || n > traces.len() || start < 0 {
        Seq::empty()
    } else {
        let rest = spec_prune(traces, start, c, n - 1);
        let keep = match traces[n - 1].left_tag.line {
            Some(l) => c.contains(l),
            None => true,
        };
        if keep {
            rest.push(traces[n - 1])
        } else {
            rest
        }
    }
}

/// Drops the traces from `start` on whose line is not in the common set.
fn prune_traces(ctx: &mut EvalCtx, start: usize, common: &Vec<i64>)
    requires
        start <= old(ctx).traces@.len(),
    ensures
        final(ctx).vars@ == old(ctx).vars@,
        final(ctx).traces@ == old(ctx).traces@.take(start as int) + spec_prune(
            old(ctx).traces@,
            start as int,
            common@,
            old(ctx).traces@.len() as int,
        ),
{
    let ghost t0 = ctx.traces@;
    let mut kept: Vec<MatchTrace> = Vec::new();
    let n = ctx.traces.len();
    let mut i: usize = start;
    while i < n
        invariant
            start <= i <= n == ctx.traces@.len(),
            ctx.traces@ == old(ctx).traces@,
            ctx.vars@ == old(ctx).vars@,
            t0 == old(ctx).traces@,
            kept@ == spec_prune(t0, start as int, common@, i as int),
        decreases n - i,
    {
        let t = ctx.traces[i];
        let keep = match t.left_tag.line {
            Some(l) => contains_line(common, l),
            None => true,
        };
        if keep {
            kept.push(t);
        }
        proof {
            assert(kept@ =~= spec_prune(t0, start as int, common@, i as int + 1));
        }
        i = i + 1;
    }
    let mut j: usize = ctx.traces.len();
    proof {
        assert(ctx.traces@ =~= t0.take(j as int));
    }
    while j > start
        invariant
            start <= j <= t0.len(),
            ctx.traces@.len() == j,
            ctx.vars@ == old(ctx).vars@,
            ctx.traces@ == t0.take(j as int),
            t0 == old(ctx).traces@,
        decreases j,
    {
        let _ = ctx.traces.pop();
        proof {
            assert(ctx.traces@ =~= t0.take(j as int - 1));
        }
        j = j - 1;
    }
    let m = kept.len();
    let mut k: usize = 0;
    while k < m
        invariant
            0 <= k <= m == kept@.len(),
            ctx.vars@ == old(ctx).vars@,
            ctx.traces@ == t0.take(start as int) + kept@.take(k as int),
            t0 == old(ctx).traces@,
        decreases m - k,
    {
        ctx.traces.push(kept[k]);
        proof {
            assert(ctx.traces@ =~= t0.take(start as int) + kept@.take(k as int + 1));
        }
        k = k + 1;
    }
    proof {
        assert(kept@.take(m as int) =~= kept@);
    }
}

/// Evaluates a per-line conjunction: every condition must pass, and the
/// conditions that matched at specific lines must share at least one
/// common line, the recorded traces then pruned to those lines;
/// conditions whose matches are line-agnostic count for every line.  With
/// no conditions the node holds.
fn eval_per_line_and(doc: &FilterDoc, list: &Vec<FilterExpr>, ctx: &mut EvalCtx) -> (res: bool)
    requires
        doc_wf(*doc),
    ensures
        res == spec_eval_pla(*doc, list@, ctx_vars_view(*old(ctx)), old(ctx).traces@).0,
        ctx_vars_view(*final(ctx)) == spec_eval_pla(
            *doc,
            list@,
            ctx_vars_view(*old(ctx)),
            old(ctx).traces@,
        ).1,
        final(ctx).traces@ == spec_eval_pla(
            *doc,
            list@,
            ctx_vars_view(*old(ctx)),
            old(ctx).traces@,
        ).2,
    decreases list_height(list@, list@.len() as int), 0nat,
{
    let ghost vars0 = ctx_vars_view(*ctx);
    let ghost t0 = ctx.traces@;
    let start = ctx.traces.len();
    let n = list.len();
    let mut common: Option<Vec<i64>> = None;
    let mut i: usize = 0;
    while i < n
        invariant
            0 <= i <= n == list@.len(),
            doc_wf(*doc),
            vars0 == ctx_vars_view(*old(ctx)),
            t0 == old(ctx).traces@,
            start == t0.len(),
            ({
                let f = spec_eval_pla_fold(*doc, list@, i as int, vars0, t0);
                &&& f.0
                &&& ctx_vars_view(*ctx) == f.1
                &&& ctx.traces@ == f.2
                &&& (match (common, f.3) {
                    (Some(c), Some(sc)) => c@ == sc,
                    (None, None) => true,
                    _ => false,
                })
            }),
        decreases n - i,
    {
        let mark = ctx.traces.len();
        let ghost fpre = spec_eval_pla_fold(*doc, list@, i as int, vars0, t0);
        proof {
            lemma_list_height(list@, n as int, i as int);
        }
        let passed = evaluate(doc, &list[i], ctx);
        if !passed {
            proof {
                lemma_pla_stuck(*doc, list@, i as int + 1, n as int, vars0, t0);
            }
            return false;
        }
        proof {
            lemma_eval_grow(*doc, list@[i as int], fpre.1, fpre.2);
        }
        let lines = trace_lines(&ctx.traces, mark);
        if lines.len() > 0 {
            common = match common {
                None => Some(lines),
                Some(prev) => Some(intersect_lines(&prev, &lines)),
            };
        }
        i = i + 1;
    }
    let ghost ffin = spec_eval_pla_fold(*doc, list@, n as int, vars0, t0);
    match common {
        None => true,
        Some(c) => {
            if c.len() == 0 {
                return false;
            }
            // keep only the traces recorded at a common line; line-agnostic
            // traces stay
            proof {
                lemma_pla_traces_len(*doc, list@, n as int, vars0, t0);
            }
            prune_traces(ctx, start, &c);
            true
        },
    }
}

/// The per-line fold's traces never shorten below the entry traces.
proof fn lemma_pla_traces_len(
    doc: FilterDoc,
    list: Seq<FilterExpr>,
    n: int,
    vars: Seq<(String, Seq<(Q, Tag)>)>,
    traces: Seq<MatchTrace>,
)
    requires
        0 <= n <= list.len(),
    ensures
        spec_eval_pla_fold(doc, list, n, vars, traces).2.len() >= traces.len(),
{
    lemma_pla_grow(doc, list, n, vars, traces);
}

/// Evaluates a filter expression against a document: conjunction and
/// disjunction short-circuit left to right, negation inverts, and the
/// per-line, comparison and vector nodes dispatch to their evaluators,
/// threading the bound variables and recorded traces.
pub fn evaluate(doc: &FilterDoc, e: &FilterExpr, ctx: &mut EvalCtx) -> (res: bool)
    requires
        doc_wf(*doc),
    ensures
        res == spec_evaluate(*doc, *e, ctx_vars_view(*old(ctx)), old(ctx).traces@).0,
        ctx_vars_view(*final(ctx)) == spec_evaluate(
            *doc,
            *e,
            ctx_vars_view(*old(ctx)),
            old(ctx).traces@,
        ).1,
        final(ctx).traces@ == spec_evaluate(
            *doc,
            *e,
            ctx_vars_view(*old(ctx)),
            old(ctx).traces@,
        ).2,
    decreases expr_height(*e), 1nat,
{
    let ghost vars0 = ctx_vars_view(*ctx);
    let ghost t0 = ctx.traces@;
    match e {
        FilterExpr::And(list) => {
            let n = list.len();
            let mut i: usize = 0;
            let mut ok = true;
            while i < n && ok
                invariant
                    0 <= i <= n == list@.len(),
                    doc_wf(*doc),
                    *e == FilterExpr::And(*list),
                    vars0 == ctx_vars_view(*old(ctx)),
                    t0 == old(ctx).traces@,
                    ({
                        let f = spec_eval_and(*doc, list@, i as int, vars0, t0);
                        ok == f.0 && ctx_vars_view(*ctx) == f.1 && ctx.traces@ == f.2
                    }),
                decreases n - i, (if ok { 1int } else { 0int }),
            {
                proof {
                    lemma_list_height(list@, n as int, i as int);
                }
                if !evaluate(doc, &list[i], ctx) {
                    ok = false;
                }
                i = i + 1;
            }
            proof {
                if !ok {
                    lemma_and_stuck(*doc, list@, i as int, n as int, vars0, t0);
                }
            }
            ok
        },
        FilterExpr::Or(list) => {
            let n = list.len();
            let mut i: usize = 0;
            let mut ok = false;
            while i < n && !ok
                invariant
                    0 <= i <= n == list@.len(),
                    doc_wf(*doc),
                    *e == FilterExpr::Or(*list),
                    vars0 == ctx_vars_view(*old(ctx)),
                    t0 == old(ctx).traces@,
                    ({
                        let f = spec_eval_or(*doc, list@, i as int, vars0, t0);
                        ok == f.0 && ctx_vars_view(*ctx) == f.1 && ctx.traces@ == f.2
                    }),
                decreases n - i, (if ok { 0int } else { 1int }),
            {
                proof {
                    lemma_list_height(list@, n as int, i as int);
                }
                if evaluate(doc, &list[i], ctx) {
                    ok = true;
                }
                i = i + 1;
            }
            proof {
                if ok {
                    lemma_or_stuck(*doc, list@, i as int, n as int, vars0, t0);
                }
            }
            ok
        },
        FilterExpr::Not(b) => !evaluate(doc, b, ctx),
        FilterExpr::PerLineAnd(list) => eval_per_line_and(doc, list, ctx),
        FilterExpr::Compare(c) => eval_compare(doc, c, ctx),
        FilterExpr::Vector(v) => eval_vector(doc, v, ctx),
    }
}

/// Runs a filter against a document from a fresh context, returning the
/// verdict and the collected match traces: a deterministic function of the
/// document and the expression.
pub fn filter_matches(doc: &FilterDoc, e: &FilterExpr) -> (r: (bool, Vec<MatchTrace>))
    requires
        doc_wf(*doc),
    ensures
        r.0 == spec_evaluate(*doc, *e, Seq::empty(), Seq::empty()).0,
        r.1@ == spec_evaluate(*doc, *e, Seq::empty(), Seq::empty()).2,
{
    let mut ctx = EvalCtx { vars: Vec::new(), traces: Vec::new() };
    proof {
        assert(ctx_vars_view(ctx) =~= Seq::<(String, Seq<(Q, Tag)>)>::empty());
        assert(ctx.traces@ =~= Seq::<MatchTrace>::empty());
    }
    let ok = evaluate(doc, e, &mut ctx);
    (ok, ctx.traces)
}

/// Two evaluations of one filter over one document agree on the verdict
/// and on the trace set: any two results meeting the evaluation contract
/// coincide, so evaluation is a function of the document and the
/// expression.
pub proof fn lemma_filter_deterministic(
    doc: FilterDoc,
    e: FilterExpr,
    r1: (bool, Seq<MatchTrace>),
    r2: (bool, Seq<MatchTrace>),
)
    requires
        r1.0 == spec_evaluate(doc, e, Seq::empty(), Seq::empty()).0,
        r1.1 == spec_evaluate(doc, e, Seq::empty(), Seq::empty()).2,
        r2.0 == spec_evaluate(doc, e, Seq::empty(), Seq::empty()).0,
        r2.1 == spec_evaluate(doc, e, Seq::empty(), Seq::empty()).2,
    ensures
        r1 == r2,
{
}


} // verus!

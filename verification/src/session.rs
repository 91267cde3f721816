//! Per-client session state of the processor edge: the active filter and
//! the set of fixtures it currently matches, with the match-enter /
//! match-stay / match-leave delivery protocol.

use vstd::prelude::*;

use crate::filter::{filter_matches, FilterDoc, FilterExpr, MatchTrace};

verus! {

/// What the edge does with one broadcast update for one session.
#[derive(Debug, Clone, Copy, PartialEq, Eq, Structural)]
pub enum SessionAction {
    Forward,
    ForwardAndAdd,
    Remove,
    Drop,
}

/// The delivery decision: an update that starts matching is forwarded and
/// the fixture recorded; one that keeps matching is forwarded; one that
/// stops matching yields a removal notice; one that never matched is
/// dropped.
pub open spec fn spec_session_action(matches_now: bool, was_matching: bool) -> SessionAction {
    if matches_now && !was_matching {
        SessionAction::ForwardAndAdd
    } else if matches_now && was_matching {
        SessionAction::Forward
    } else if !matches_now && was_matching {
        SessionAction::Remove
    } else {
        SessionAction::Drop
    }
}

/// Per-session state: the optional filter and the matching-fixture set.
pub struct ClientState {
    pub filter: Option<FilterExpr>,
    pub matching_fixtures: Vec<i64>,
}

/// No fixture recorded twice.
pub open spec fn fixtures_unique(v: Seq<i64>) -> bool {
    forall|i: int, j: int| 0 <= i < j < v.len() ==> v[i] != v[j]
}

impl ClientState {
    /// A fresh session: no filter, nothing matching.
    pub fn new() -> (r: ClientState)
        ensures
            r.filter is None,
            r.matching_fixtures@.len() == 0,
            fixtures_unique(r.matching_fixtures@),
    {
        ClientState { filter: None, matching_fixtures: Vec::new() }
    }

    /// Whether the session saw the fixture matching.
    pub fn is_matching(&self, fixture_id: i64) -> (r: bool)
        ensures
            r == self.matching_fixtures@.contains(fixture_id),
    {
        let n = self.matching_fixtures.len();
        let mut i: usize = 0;
        while i < n
            invariant
                0 <= i <= n == self.matching_fixtures@.len(),
                forall|k: int| 0 <= k < i ==> self.matching_fixtures@[k] != fixture_id,
            decreases n - i,
        {
            if self.matching_fixtures[i] == fixture_id {
                proof {
                    assert(self.matching_fixtures@.contains(fixture_id)) by {
                        assert(self.matching_fixtures@[i as int] == fixture_id);
                    }
                }
                return true;
            }
            i = i + 1;
        }
        proof {
            if self.matching_fixtures@.contains(fixture_id) {
                let k = choose|k: int|
                    0 <= k < self.matching_fixtures@.len() && self.matching_fixtures@[k]
                        == fixture_id;
                assert(self.matching_fixtures@[k] != fixture_id);
            }
        }
        false
    }

    /// Clears the matching set, as every filter change does.
    pub fn reset_matching(&mut self)
        ensures
            final(self).matching_fixtures@.len() == 0,
            fixtures_unique(final(self).matching_fixtures@),
            final(self).filter == old(self).filter,
    {
        self.matching_fixtures.clear();
    }

    /// Records a fixture as matching.
    pub fn note_matching(&mut self, fixture_id: i64)
        requires
            fixtures_unique(old(self).matching_fixtures@),
        ensures
            fixtures_unique(final(self).matching_fixtures@),
            forall|f: i64|
                final(self).matching_fixtures@.contains(f) <==> (old(
                    self,
                ).matching_fixtures@.contains(f) || f == fixture_id),
            final(self).filter == old(self).filter,
    {
        let ghost v0 = self.matching_fixtures@;
        if !self.is_matching(fixture_id) {
            self.matching_fixtures.push(fixture_id);
            proof {
                assert(forall|k: int| 0 <= k < v0.len() ==> self.matching_fixtures@[k] == v0[k]);
                assert(self.matching_fixtures@[v0.len() as int] == fixture_id);
                assert forall|f: i64|
                    final(self).matching_fixtures@.contains(f) implies (v0.contains(f) || f
                    == fixture_id) by {
                    let k = choose|k: int|
                        0 <= k < self.matching_fixtures@.len() && self.matching_fixtures@[k] == f;
                    if k < v0.len() {
                        assert(v0[k] == f);
                    }
                }
                assert forall|f: i64| v0.contains(f) || f
                    == fixture_id implies final(self).matching_fixtures@.contains(f) by {
                    if v0.contains(f) {
                        let k = choose|k: int| 0 <= k < v0.len() && v0[k] == f;
                        assert(self.matching_fixtures@[k] == f);
                    } else {
                        assert(self.matching_fixtures@[v0.len() as int] == f);
                    }
                }
            }
        }
    }

    /// Forgets a fixture.
    pub fn note_left(&mut self, fixture_id: i64)
        requires
            fixtures_unique(old(self).matching_fixtures@),
        ensures
            fixtures_unique(final(self).matching_fixtures@),
            forall|f: i64|
                final(self).matching_fixtures@.contains(f) <==> (old(
                    self,
                ).matching_fixtures@.contains(f) && f != fixture_id),
            final(self).filter == old(self).filter,
    {
        let ghost v0 = self.matching_fixtures@;
        let n = self.matching_fixtures.len();
        let mut i: usize = 0;
        while i < n
            invariant
                0 <= i <= n == self.matching_fixtures@.len(),
                self.matching_fixtures@ == v0,
                v0 == old(self).matching_fixtures@,
                fixtures_unique(v0),
                forall|k: int| 0 <= k < i ==> v0[k] != fixture_id,
                self.filter == old(self).filter,
            decreases n - i,
        {
            if self.matching_fixtures[i] == fixture_id {
                self.matching_fixtures.remove(i);
                proof {
                    let v1 = self.matching_fixtures@;
                    assert(v1 =~= v0.remove(i as int));
                    assert(fixtures_unique(v1)) by {
                        assert forall|a: int, b: int| 0 <= a < b < v1.len() implies v1[a]
                            != v1[b] by {
                            let sa = if a < i {
                                a
                            } else {
                                a + 1
                            };
                            let sb = if b < i {
                                b
                            } else {
                                b + 1
                            };
                            assert(v1[a] == v0[sa] && v1[b] == v0[sb]);
                        }
                    }
                    assert forall|f: i64| v1.contains(f) implies (v0.contains(f) && f
                        != fixture_id) by {
                        let k = choose|k: int| 0 <= k < v1.len() && v1[k] == f;
                        let sk = if k < i {
                            k
                        } else {
                            k + 1
                        };
                        assert(v1[k] == v0[sk]);
                        assert(v0.contains(f)) by {
                            assert(v0[sk] == f);
                        }
                        if f == fixture_id {
                            assert(v0[i as int] == fixture_id);
                            if sk < i as int {
                                assert(v0[sk] != v0[i as int]);
                            } else {
                                assert(v0[i as int] != v0[sk]);
                            }
                        }
                    }
                    assert forall|f: i64| v0.contains(f) && f != fixture_id implies v1.contains(
                        f,
                    ) by {
                        let k = choose|k: int| 0 <= k < v0.len() && v0[k] == f;
                        if k < i {
                            assert(v1[k] == f);
                        } else {
                            assert(k != i);
                            assert(v1[k - 1] == f);
                        }
                    }
                }
                return ;
            }
            i = i + 1;
        }
        proof {
            assert forall|f: i64| v0.contains(f) implies f != fixture_id by {
                let k = choose|k: int| 0 <= k < v0.len() && v0[k] == f;
            }
        }
    }

    /// Handles one broadcast update: evaluates the filter (everything is
    /// forwarded without one), updates the matching set, and returns the
    /// delivery action with the traces of a matching evaluation.
    pub fn handle_update(&mut self, doc: &FilterDoc) -> (r: (SessionAction, Vec<MatchTrace>))
        requires
            fixtures_unique(old(self).matching_fixtures@),
            crate::filter::doc_wf(*doc),
        ensures
            fixtures_unique(final(self).matching_fixtures@),
            old(self).filter is None ==> r.0 == SessionAction::Forward
                && final(self).matching_fixtures@ == old(self).matching_fixtures@,
            old(self).filter matches Some(flt) ==> ({
                let matches_now = crate::filter::spec_evaluate(
                    *doc,
                    flt,
                    Seq::empty(),
                    Seq::empty(),
                ).0;
                &&& r.0 == spec_session_action(
                    matches_now,
                    old(self).matching_fixtures@.contains(doc.fixture_id),
                )
                &&& (matches_now ==> r.1@ == crate::filter::spec_evaluate(
                    *doc,
                    flt,
                    Seq::empty(),
                    Seq::empty(),
                ).2)
                &&& (!matches_now ==> r.1@.len() == 0)
                &&& (forall|f: i64|
                    final(self).matching_fixtures@.contains(f) <==> (
                    if matches_now {
                        old(self).matching_fixtures@.contains(f) || f == doc.fixture_id
                    } else {
                        old(self).matching_fixtures@.contains(f) && f != doc.fixture_id
                    }))
            }),
    {
        match &self.filter {
            None => {
                let traces: Vec<MatchTrace> = Vec::new();
                (SessionAction::Forward, traces)
            },
            Some(f) => {
                let (matches_now, traces) = filter_matches(doc, f);
                let was = self.is_matching(doc.fixture_id);
                if matches_now {
                    self.note_matching(doc.fixture_id);
                    if was {
                        (SessionAction::Forward, traces)
                    } else {
                        (SessionAction::ForwardAndAdd, traces)
                    }
                } else {
                    self.note_left(doc.fixture_id);
                    let empty: Vec<MatchTrace> = Vec::new();
                    if was {
                        (SessionAction::Remove, empty)
                    } else {
                        (SessionAction::Drop, empty)
                    }
                }
            },
        }
    }

    /// Decides one snapshot send after a subscribe or filter change: a
    /// fixture is sent (and recorded) exactly when the filter is absent or
    /// matches.
    pub fn snapshot_decision(&mut self, doc: &FilterDoc) -> (r: (bool, Vec<MatchTrace>))
        requires
            fixtures_unique(old(self).matching_fixtures@),
            crate::filter::doc_wf(*doc),
        ensures
            fixtures_unique(final(self).matching_fixtures@),
            old(self).filter is None ==> r.0,
            old(self).filter matches Some(flt) ==> r.0 == crate::filter::spec_evaluate(
                *doc,
                flt,
                Seq::empty(),
                Seq::empty(),
            ).0,
            r.0 ==> forall|f: i64|
                final(self).matching_fixtures@.contains(f) <==> (old(
                    self,
                ).matching_fixtures@.contains(f) || f == doc.fixture_id),
            !r.0 ==> final(self).matching_fixtures@ == old(self).matching_fixtures@,
    {
        match &self.filter {
            None => {
                let traces: Vec<MatchTrace> = Vec::new();
                self.note_matching(doc.fixture_id);
                (true, traces)
            },
            Some(f) => {
                let (ok, traces) = filter_matches(doc, f);
                if ok {
                    self.note_matching(doc.fixture_id);
                    (true, traces)
                } else {
                    let empty: Vec<MatchTrace> = Vec::new();
                    (false, empty)
                }
            },
        }
    }
}

} // verus!

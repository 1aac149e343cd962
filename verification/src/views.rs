//! The working-set view of a resumed session: the attention model over the
//! focused locations and a window of recent uncited observations, after
//! their verdicts are refreshed.

use vstd::prelude::*;
use crate::attention::{uncited_window_spec, working_set_view_holds, WorkingSetView};
use crate::error::WorkspaceError;
use crate::projection::WorkspaceStatus;
use crate::status::status_holds;
use crate::model::{Claim, Finding};
use crate::store::{lemma_to_map_dom, lemma_to_map_index, to_map, vseq, KeyOf};
use crate::workspace::{extends, reconciled_all, same_but_sequence, Reconciliation, Workspace};

verus! {

/// The ids of the claims in a listing whose activity is `active`.
fn claim_ids_with_activity(v: &Vec<Claim>, active: bool) -> (r: Vec<u64>)
    requires
        crate::store::keys_increasing::<Claim>(vseq(v@)),
    ensures
        forall|id: u64| #[trigger] r@.contains(id) <==> (to_map::<Claim>(vseq(v@)).contains_key(id) && (to_map::<
            Claim,
        >(vseq(v@))[id].lifecycle is Active) == active),
{
    let ghost s = vseq(v@);
    let mut out: Vec<u64> = Vec::new();
    let mut i: usize = 0;
    while i < v.len()
        invariant
            i <= v@.len(),
            s == vseq(v@),
            crate::store::keys_increasing::<Claim>(s),
            forall|id: u64| #[trigger] out@.contains(id) <==> exists|j: int| 0 <= j < i && s[j].id == id
                && (s[j].lifecycle is Active) == active,
        decreases v@.len() - i,
    {
        assert(s[i as int] == v@[i as int]@);
        let ghost prev = out@;
        if v[i].lifecycle.is_active() == active {
            out.push(v[i].id);
        }
        proof {
            assert forall|id: u64| #[trigger] out@.contains(id) <==> exists|j: int| 0 <= j < i + 1 && s[j].id
                == id && (s[j].lifecycle is Active) == active by {
                if out@.contains(id) {
                    let k = choose|k: int| 0 <= k < out@.len() && out@[k] == id;
                    if k < prev.len() {
                        assert(prev[k] == id);
                        assert(prev.contains(id));
                        let j = choose|j: int| 0 <= j < i && s[j].id == id && (s[j].lifecycle is Active) == active;
                        assert(0 <= j < i + 1 && s[j].id == id && (s[j].lifecycle is Active) == active);
                    } else {
                        assert(s[i as int].id == id && (s[i as int].lifecycle is Active) == active);
                    }
                }
                if exists|j: int| 0 <= j < i + 1 && s[j].id == id && (s[j].lifecycle is Active) == active {
                    let j = choose|j: int| 0 <= j < i + 1 && s[j].id == id && (s[j].lifecycle is Active) == active;
                    if j < i {
                        assert(exists|j2: int| 0 <= j2 < i && s[j2].id == id && (s[j2].lifecycle is Active) == active);
                        assert(prev.contains(id));
                        let k = choose|k: int| 0 <= k < prev.len() && prev[k] == id;
                        assert(out@[k] == id);
                    } else {
                        assert(out@[prev.len() as int] == id);
                    }
                }
            }
        }
        i = i + 1;
    }
    proof {
        assert forall|id: u64| #[trigger] out@.contains(id) <==> (to_map::<Claim>(s).contains_key(id) && (to_map::<
            Claim,
        >(s)[id].lifecycle is Active) == active) by {
            lemma_to_map_dom::<Claim>(s, id);
            if to_map::<Claim>(s).contains_key(id) {
                let j = choose|j: int| 0 <= j < s.len() && Claim::key_of(#[trigger] s[j]) == id;
                lemma_to_map_index::<Claim>(s, j);
            }
            if out@.contains(id) {
                let j = choose|j: int| 0 <= j < s.len() && s[j].id == id && (s[j].lifecycle is Active) == active;
                lemma_to_map_index::<Claim>(s, j);
            }
        }
    }
    out
}

/// The ids of the open findings in a listing.
fn open_finding_ids(v: &Vec<Finding>) -> (r: Vec<u64>)
    requires
        crate::store::keys_increasing::<Finding>(vseq(v@)),
    ensures
        forall|id: u64| #[trigger] r@.contains(id) <==> (to_map::<Finding>(vseq(v@)).contains_key(id) && to_map::<
            Finding,
        >(vseq(v@))[id].disposition is Open),
{
    let ghost s = vseq(v@);
    let mut out: Vec<u64> = Vec::new();
    let mut i: usize = 0;
    while i < v.len()
        invariant
            i <= v@.len(),
            s == vseq(v@),
            crate::store::keys_increasing::<Finding>(s),
            forall|id: u64| #[trigger] out@.contains(id) <==> exists|j: int| 0 <= j < i && s[j].id == id
                && s[j].disposition is Open,
        decreases v@.len() - i,
    {
        assert(s[i as int] == v@[i as int]@);
        let ghost prev = out@;
        if v[i].disposition.is_open() {
            out.push(v[i].id);
        }
        proof {
            assert forall|id: u64| #[trigger] out@.contains(id) <==> exists|j: int| 0 <= j < i + 1 && s[j].id
                == id && s[j].disposition is Open by {
                if out@.contains(id) {
                    let k = choose|k: int| 0 <= k < out@.len() && out@[k] == id;
                    if k < prev.len() {
                        assert(prev[k] == id);
                        assert(prev.contains(id));
                        let j = choose|j: int| 0 <= j < i && s[j].id == id && s[j].disposition is Open;
                        assert(0 <= j < i + 1 && s[j].id == id && s[j].disposition is Open);
                    } else {
                        assert(s[i as int].id == id && s[i as int].disposition is Open);
                    }
                }
                if exists|j: int| 0 <= j < i + 1 && s[j].id == id && s[j].disposition is Open {
                    let j = choose|j: int| 0 <= j < i + 1 && s[j].id == id && s[j].disposition is Open;
                    if j < i {
                        assert(exists|j2: int| 0 <= j2 < i && s[j2].id == id && s[j2].disposition is Open);
                        assert(prev.contains(id));
                        let k = choose|k: int| 0 <= k < prev.len() && prev[k] == id;
                        assert(out@[k] == id);
                    } else {
                        assert(out@[prev.len() as int] == id);
                    }
                }
            }
        }
        i = i + 1;
    }
    proof {
        assert forall|id: u64| #[trigger] out@.contains(id) <==> (to_map::<Finding>(s).contains_key(id)
            && to_map::<Finding>(s)[id].disposition is Open) by {
            lemma_to_map_dom::<Finding>(s, id);
            if to_map::<Finding>(s).contains_key(id) {
                let j = choose|j: int| 0 <= j < s.len() && Finding::key_of(#[trigger] s[j]) == id;
                lemma_to_map_index::<Finding>(s, j);
            }
            if out@.contains(id) {
                let j = choose|j: int| 0 <= j < s.len() && s[j].id == id && s[j].disposition is Open;
                lemma_to_map_index::<Finding>(s, j);
            }
        }
    }
    out
}

impl Workspace {
    /// The claims the bounded surfaces refresh before they are built (the
    /// brief status, the bounded delta, a checkpoint): the active ones.
    pub fn active_claim_targets(&self) -> (r: Vec<u64>)
        requires
            self.wf(),
        ensures
            forall|id: u64| #[trigger] r@.contains(id) <==> (self.projection().claims.contains_key(id)
                && self.projection().claims[id].lifecycle is Active),
    {
        let st = self.status();
        let r = claim_ids_with_activity(&st.claims, true);
        proof {
            assert forall|id: u64| #[trigger] r@.contains(id) <==> (self.projection().claims.contains_key(id)
                && self.projection().claims[id].lifecycle is Active) by {
                let m = crate::status::claims_with_activity(self.projection().claims, true);
                assert(to_map::<Claim>(vseq(st.claims@)) == m);
                if m.contains_key(id) {
                    assert(m[id] == self.projection().claims[id]);
                }
            }
        }
        r
    }

    /// The findings the findings queue refreshes before it is built: the
    /// open ones.
    pub fn open_finding_targets(&self) -> (r: Vec<u64>)
        requires
            self.wf(),
        ensures
            forall|id: u64| #[trigger] r@.contains(id) <==> (self.projection().findings.contains_key(id)
                && self.projection().findings[id].disposition is Open),
    {
        let st = self.status();
        open_finding_ids(&st.findings)
    }

    /// What a transaction's preview and acceptance refresh: its acceptance
    /// claims, its evidence and its associated findings; `None` when there
    /// is no such transaction.
    pub fn transaction_targets(&self, transaction_id: u64) -> (r: Option<(Vec<u64>, Vec<u64>, Vec<u64>)>)
        requires
            self.wf(),
        ensures
            match r {
                Some((c, e, f)) => self.projection().transactions.contains_key(transaction_id) && {
                    let t = self.projection().transactions[transaction_id];
                    c@ == t.acceptance_claim_ids && e@ == t.evidence_ids && f@ == t.finding_ids
                },
                None => !self.projection().transactions.contains_key(transaction_id),
            },
    {
        match self.transaction_at(transaction_id) {
            Some(t) => Some((t.acceptance_claim_ids, t.evidence_ids, t.finding_ids)),
            None => None,
        }
    }

    /// The observations a working-set view refreshes before it is built:
    /// every focused one and the window of recent uncited ones.
    pub fn working_set_reconcile_targets(&self) -> (r: Vec<u64>)
        requires
            self.wf(),
        ensures
            exists|st: WorkspaceStatus|
                status_holds(self.projection(), &st) && forall|id: u64| #[trigger]
                    r@.contains(id) <==> (crate::attention::focuses(
                        crate::store::vseq(st.working_set@),
                        id,
                    ) || uncited_window_spec(&st).contains(id)),
    {
        let st = self.status();
        st.working_set_reconcile_ids()
    }

    /// Reconcile, then report the working-set view: the focused locations
    /// and the uncited observations among the recent window.
    pub fn resume_working_set_view(&mut self, rs: &Vec<Reconciliation>) -> (r: Result<
        WorkingSetView,
        WorkspaceError,
    >)
        requires
            old(self).wf(),
        ensures
            final(self).wf(),
            extends(old(self).records(), final(self).records()),
            match r {
                Ok(v) => same_but_sequence(
                    final(self).projection(),
                    reconciled_all(old(self).projection(), rs@),
                ) && exists|st: WorkspaceStatus|
                    status_holds(final(self).projection(), &st) && #[trigger] working_set_view_holds(
                        &st,
                        Some(uncited_window_spec(&st)),
                        &v,
                    ),
                Err(e) => e is CorruptLog && old(self).projection().next_sequence + rs@.len() >= u64::MAX,
            },
    {
        match self.apply_reconciliations(rs) {
            Ok(()) => {
                let st = self.status();
                let window = st.uncited_window();
                let v = st.working_set_view_with_uncited_candidates(Some(&window));
                assert(status_holds(self.projection(), &st) && working_set_view_holds(
                    &st,
                    Some(uncited_window_spec(&st)),
                    &v,
                ));
                assert(exists|st2: WorkspaceStatus|
                    status_holds(self.projection(), &st2) && #[trigger] working_set_view_holds(
                        &st2,
                        Some(uncited_window_spec(&st2)),
                        &v,
                    ));
                let out = Ok(v);
                assert(out matches Ok(w) && w == v);
                out
            },
            Err(e) => Err(e),
        }
    }
}

} // verus!

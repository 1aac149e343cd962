//! What changed since a checkpoint: the log replayed up to the checkpoint
//! is the baseline, the reconciled status is now, and the delta is their
//! difference.

use vstd::prelude::*;

use crate::model::{
    clone_opt_objective, opt_objective, CheckpointMarker, Claim, ClaimView, FreshnessWithinScope,
    Observation, ObservationView, Transaction, TransactionState, TransactionView,
};
use crate::projection::{lemma_take_succ, select_where, DeltaStatus, ObjectiveChange, WorkspaceStatus};
use crate::state::{Projection, ProjectionView};
use crate::store::{find_index, vseq};

verus! {

pub open spec fn recorded_claim(b: ProjectionView) -> spec_fn(ClaimView) -> bool {
    |c: ClaimView| !b.claims.contains_key(c.id)
}

pub open spec fn staled_claim(b: ProjectionView) -> spec_fn(ClaimView) -> bool {
    |c: ClaimView| b.claims.contains_key(c.id) && (b.claims[c.id].lifecycle is Active)
        && b.claims[c.id].report.freshness_within_scope == FreshnessWithinScope::Current
        && c.report.freshness_within_scope == FreshnessWithinScope::Stale
}

pub open spec fn superseded_claim(b: ProjectionView) -> spec_fn(ClaimView) -> bool {
    |c: ClaimView| b.claims.contains_key(c.id) && (b.claims[c.id].lifecycle is Active)
}

pub open spec fn recorded_observation(b: ProjectionView) -> spec_fn(ObservationView) -> bool {
    |o: ObservationView| !b.observations.contains_key(o.id)
}

pub open spec fn opened_transaction(b: ProjectionView) -> spec_fn(TransactionView) -> bool {
    |t: TransactionView| !b.transactions.contains_key(t.id)
}

pub open spec fn closed_transaction(b: ProjectionView) -> spec_fn(TransactionView) -> bool {
    |t: TransactionView| b.transactions.contains_key(t.id) && b.transactions[t.id].state == TransactionState::Open
        && t.state != TransactionState::Open
}

/// The delta between a baseline projection and a current status.
pub open spec fn delta_holds(
    checkpoint: crate::model::CheckpointMarkerView,
    b: ProjectionView,
    st: &WorkspaceStatus,
    d: &DeltaStatus,
) -> bool {
    &&& d.checkpoint@ == checkpoint
    &&& (b.objective == opt_objective(st.objective) ==> d.objective_change is None)
    &&& (b.objective != opt_objective(st.objective) ==> (d.objective_change matches Some(c)
        && opt_objective(c.before) == b.objective && opt_objective(c.after) == opt_objective(
        st.objective,
    )))
    &&& vseq(d.claims_recorded@) == select_where(vseq(st.claims@), recorded_claim(b))
    &&& vseq(d.claims_staled@) == select_where(vseq(st.claims@), staled_claim(b))
    &&& vseq(d.claims_superseded@) == select_where(vseq(st.superseded_claims@), superseded_claim(b))
    &&& vseq(d.observations_recorded@) == select_where(vseq(st.observations@), recorded_observation(b))
    &&& vseq(d.transactions_opened@) == select_where(vseq(st.transactions@), opened_transaction(b))
    &&& vseq(d.transactions_closed@) == select_where(vseq(st.transactions@), closed_transaction(b))
}

fn select_claims_recorded(baseline: &Projection, items: &Vec<Claim>) -> (r: Vec<Claim>)
    requires
        baseline.wf(),
    ensures
        vseq(r@) == select_where(vseq(items@), recorded_claim(baseline@)),
{
    let ghost b = baseline@;
    let mut r: Vec<Claim> = Vec::new();
    let mut i: usize = 0;
    while i < items.len()
        invariant
            i <= items@.len(),
            baseline.wf(),
            b == baseline@,
            vseq(r@) == select_where(vseq(items@).take(i as int), recorded_claim(b)),
        decreases items.len() - i,
    {
        proof {
            lemma_take_succ(vseq(items@), i as int);
        }
        let x = &items[i];
        let keep = !find_index(&baseline.claims, x.id).is_some();
        assert(keep == recorded_claim(b)(x@));
        if keep {
            let c = x.clone();
            let ghost before = r@;
            r.push(c);
            assert(vseq(r@) =~= vseq(before).push(c@));
        }
        i = i + 1;
    }
    assert(vseq(items@).take(items@.len() as int) =~= vseq(items@));
    r
}

fn select_claims_staled(baseline: &Projection, items: &Vec<Claim>) -> (r: Vec<Claim>)
    requires
        baseline.wf(),
    ensures
        vseq(r@) == select_where(vseq(items@), staled_claim(baseline@)),
{
    let ghost b = baseline@;
    let mut r: Vec<Claim> = Vec::new();
    let mut i: usize = 0;
    while i < items.len()
        invariant
            i <= items@.len(),
            baseline.wf(),
            b == baseline@,
            vseq(r@) == select_where(vseq(items@).take(i as int), staled_claim(b)),
        decreases items.len() - i,
    {
        proof {
            lemma_take_succ(vseq(items@), i as int);
        }
        let x = &items[i];
        let keep = match find_index(&baseline.claims, x.id) {
                Some(k) => baseline.claims[k].lifecycle.is_active()
                    && baseline.claims[k].report.freshness_within_scope == FreshnessWithinScope::Current
                    && x.report.freshness_within_scope == FreshnessWithinScope::Stale,
                None => false,
            };
        assert(keep == staled_claim(b)(x@));
        if keep {
            let c = x.clone();
            let ghost before = r@;
            r.push(c);
            assert(vseq(r@) =~= vseq(before).push(c@));
        }
        i = i + 1;
    }
    assert(vseq(items@).take(items@.len() as int) =~= vseq(items@));
    r
}

fn select_claims_superseded(baseline: &Projection, items: &Vec<Claim>) -> (r: Vec<Claim>)
    requires
        baseline.wf(),
    ensures
        vseq(r@) == select_where(vseq(items@), superseded_claim(baseline@)),
{
    let ghost b = baseline@;
    let mut r: Vec<Claim> = Vec::new();
    let mut i: usize = 0;
    while i < items.len()
        invariant
            i <= items@.len(),
            baseline.wf(),
            b == baseline@,
            vseq(r@) == select_where(vseq(items@).take(i as int), superseded_claim(b)),
        decreases items.len() - i,
    {
        proof {
            lemma_take_succ(vseq(items@), i as int);
        }
        let x = &items[i];
        let keep = match find_index(&baseline.claims, x.id) {
                Some(k) => baseline.claims[k].lifecycle.is_active(),
                None => false,
            };
        assert(keep == superseded_claim(b)(x@));
        if keep {
            let c = x.clone();
            let ghost before = r@;
            r.push(c);
            assert(vseq(r@) =~= vseq(before).push(c@));
        }
        i = i + 1;
    }
    assert(vseq(items@).take(items@.len() as int) =~= vseq(items@));
    r
}

fn select_observations_recorded(baseline: &Projection, items: &Vec<Observation>) -> (r: Vec<Observation>)
    requires
        baseline.wf(),
    ensures
        vseq(r@) == select_where(vseq(items@), recorded_observation(baseline@)),
{
    let ghost b = baseline@;
    let mut r: Vec<Observation> = Vec::new();
    let mut i: usize = 0;
    while i < items.len()
        invariant
            i <= items@.len(),
            baseline.wf(),
            b == baseline@,
            vseq(r@) == select_where(vseq(items@).take(i as int), recorded_observation(b)),
        decreases items.len() - i,
    {
        proof {
            lemma_take_succ(vseq(items@), i as int);
        }
        let x = &items[i];
        let keep = !find_index(&baseline.observations, x.id).is_some();
        assert(keep == recorded_observation(b)(x@));
        if keep {
            let c = x.clone();
            let ghost before = r@;
            r.push(c);
            assert(vseq(r@) =~= vseq(before).push(c@));
        }
        i = i + 1;
    }
    assert(vseq(items@).take(items@.len() as int) =~= vseq(items@));
    r
}

fn select_transactions_opened(baseline: &Projection, items: &Vec<Transaction>) -> (r: Vec<Transaction>)
    requires
        baseline.wf(),
    ensures
        vseq(r@) == select_where(vseq(items@), opened_transaction(baseline@)),
{
    let ghost b = baseline@;
    let mut r: Vec<Transaction> = Vec::new();
    let mut i: usize = 0;
    while i < items.len()
        invariant
            i <= items@.len(),
            baseline.wf(),
            b == baseline@,
            vseq(r@) == select_where(vseq(items@).take(i as int), opened_transaction(b)),
        decreases items.len() - i,
    {
        proof {
            lemma_take_succ(vseq(items@), i as int);
        }
        let x = &items[i];
        let keep = !find_index(&baseline.transactions, x.id).is_some();
        assert(keep == opened_transaction(b)(x@));
        if keep {
            let c = x.clone();
            let ghost before = r@;
            r.push(c);
            assert(vseq(r@) =~= vseq(before).push(c@));
        }
        i = i + 1;
    }
    assert(vseq(items@).take(items@.len() as int) =~= vseq(items@));
    r
}

fn select_transactions_closed(baseline: &Projection, items: &Vec<Transaction>) -> (r: Vec<Transaction>)
    requires
        baseline.wf(),
    ensures
        vseq(r@) == select_where(vseq(items@), closed_transaction(baseline@)),
{
    let ghost b = baseline@;
    let mut r: Vec<Transaction> = Vec::new();
    let mut i: usize = 0;
    while i < items.len()
        invariant
            i <= items@.len(),
            baseline.wf(),
            b == baseline@,
            vseq(r@) == select_where(vseq(items@).take(i as int), closed_transaction(b)),
        decreases items.len() - i,
    {
        proof {
            lemma_take_succ(vseq(items@), i as int);
        }
        let x = &items[i];
        let keep = match find_index(&baseline.transactions, x.id) {
                Some(k) => baseline.transactions[k].state == TransactionState::Open
                    && x.state != TransactionState::Open,
                None => false,
            };
        assert(keep == closed_transaction(b)(x@));
        if keep {
            let c = x.clone();
            let ghost before = r@;
            r.push(c);
            assert(vseq(r@) =~= vseq(before).push(c@));
        }
        i = i + 1;
    }
    assert(vseq(items@).take(items@.len() as int) =~= vseq(items@));
    r
}

/// Diff a current status against the baseline a checkpoint anchors.
pub fn delta_between(checkpoint: CheckpointMarker, baseline: &Projection, current: &WorkspaceStatus) -> (r: DeltaStatus)
    requires
        baseline.wf(),
    ensures
        delta_holds(checkpoint@, baseline@, current, &r),
{
    let same = crate::model::objectives_equal(&baseline.objective, &current.objective);
    let objective_change = if same {
        None
    } else {
        Some(
            ObjectiveChange {
                before: clone_opt_objective(&baseline.objective),
                after: clone_opt_objective(&current.objective),
            },
        )
    };
    DeltaStatus {
        checkpoint,
        objective_change,
        claims_recorded: select_claims_recorded(baseline, &current.claims),
        claims_superseded: select_claims_superseded(baseline, &current.superseded_claims),
        claims_staled: select_claims_staled(baseline, &current.claims),
        observations_recorded: select_observations_recorded(baseline, &current.observations),
        transactions_opened: select_transactions_opened(baseline, &current.transactions),
        transactions_closed: select_transactions_closed(baseline, &current.transactions),
    }
}

} // verus!

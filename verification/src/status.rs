//! The full audit status: the projection's entities listed by id, active
//! and superseded claims apart.

use vstd::prelude::*;

use crate::model::{
    clone_opt_objective, opt_objective, CheckpointMarker, Claim, ClaimView, Evidence, Finding,
    Observation, Transaction, WorkingSetEntry,
};
use crate::projection::WorkspaceStatus;
use crate::state::{Projection, ProjectionView};
use crate::store::{keys_increasing, lemma_to_map_dom, to_map, vseq, KeyOf};

verus! {

pub fn clone_observations(v: &Vec<Observation>) -> (r: Vec<Observation>)
    ensures
        vseq(r@) == vseq(v@),
{
    let mut r: Vec<Observation> = Vec::new();
    let mut i: usize = 0;
    while i < v.len()
        invariant
            i <= v@.len(),
            vseq(r@) == vseq(v@).take(i as int),
        decreases v.len() - i,
    {
        let x = v[i].clone();
        let ghost before = r@;
        r.push(x);
        assert(vseq(r@) =~= vseq(before).push(x@));
        assert(vseq(r@) =~= vseq(v@).take(i + 1));
        i = i + 1;
    }
    assert(vseq(v@).take(v@.len() as int) =~= vseq(v@));
    r
}

pub fn clone_workingsetentrys(v: &Vec<WorkingSetEntry>) -> (r: Vec<WorkingSetEntry>)
    ensures
        vseq(r@) == vseq(v@),
{
    let mut r: Vec<WorkingSetEntry> = Vec::new();
    let mut i: usize = 0;
    while i < v.len()
        invariant
            i <= v@.len(),
            vseq(r@) == vseq(v@).take(i as int),
        decreases v.len() - i,
    {
        let x = v[i].clone();
        let ghost before = r@;
        r.push(x);
        assert(vseq(r@) =~= vseq(before).push(x@));
        assert(vseq(r@) =~= vseq(v@).take(i + 1));
        i = i + 1;
    }
    assert(vseq(v@).take(v@.len() as int) =~= vseq(v@));
    r
}

pub fn clone_evidences(v: &Vec<Evidence>) -> (r: Vec<Evidence>)
    ensures
        vseq(r@) == vseq(v@),
{
    let mut r: Vec<Evidence> = Vec::new();
    let mut i: usize = 0;
    while i < v.len()
        invariant
            i <= v@.len(),
            vseq(r@) == vseq(v@).take(i as int),
        decreases v.len() - i,
    {
        let x = v[i].clone();
        let ghost before = r@;
        r.push(x);
        assert(vseq(r@) =~= vseq(before).push(x@));
        assert(vseq(r@) =~= vseq(v@).take(i + 1));
        i = i + 1;
    }
    assert(vseq(v@).take(v@.len() as int) =~= vseq(v@));
    r
}

pub fn clone_findings(v: &Vec<Finding>) -> (r: Vec<Finding>)
    ensures
        vseq(r@) == vseq(v@),
{
    let mut r: Vec<Finding> = Vec::new();
    let mut i: usize = 0;
    while i < v.len()
        invariant
            i <= v@.len(),
            vseq(r@) == vseq(v@).take(i as int),
        decreases v.len() - i,
    {
        let x = v[i].clone();
        let ghost before = r@;
        r.push(x);
        assert(vseq(r@) =~= vseq(before).push(x@));
        assert(vseq(r@) =~= vseq(v@).take(i + 1));
        i = i + 1;
    }
    assert(vseq(v@).take(v@.len() as int) =~= vseq(v@));
    r
}

pub fn clone_transactions(v: &Vec<Transaction>) -> (r: Vec<Transaction>)
    ensures
        vseq(r@) == vseq(v@),
{
    let mut r: Vec<Transaction> = Vec::new();
    let mut i: usize = 0;
    while i < v.len()
        invariant
            i <= v@.len(),
            vseq(r@) == vseq(v@).take(i as int),
        decreases v.len() - i,
    {
        let x = v[i].clone();
        let ghost before = r@;
        r.push(x);
        assert(vseq(r@) =~= vseq(before).push(x@));
        assert(vseq(r@) =~= vseq(v@).take(i + 1));
        i = i + 1;
    }
    assert(vseq(v@).take(v@.len() as int) =~= vseq(v@));
    r
}

pub fn clone_checkpointmarkers(v: &Vec<CheckpointMarker>) -> (r: Vec<CheckpointMarker>)
    ensures
        vseq(r@) == vseq(v@),
{
    let mut r: Vec<CheckpointMarker> = Vec::new();
    let mut i: usize = 0;
    while i < v.len()
        invariant
            i <= v@.len(),
            vseq(r@) == vseq(v@).take(i as int),
        decreases v.len() - i,
    {
        let x = v[i].clone();
        let ghost before = r@;
        r.push(x);
        assert(vseq(r@) =~= vseq(before).push(x@));
        assert(vseq(r@) =~= vseq(v@).take(i + 1));
        i = i + 1;
    }
    assert(vseq(v@).take(v@.len() as int) =~= vseq(v@));
    r
}

pub fn clone_claims(v: &Vec<Claim>) -> (r: Vec<Claim>)
    ensures
        vseq(r@) == vseq(v@),
{
    let mut r: Vec<Claim> = Vec::new();
    let mut i: usize = 0;
    while i < v.len()
        invariant
            i <= v@.len(),
            vseq(r@) == vseq(v@).take(i as int),
        decreases v.len() - i,
    {
        let x = v[i].clone();
        let ghost before = r@;
        r.push(x);
        assert(vseq(r@) =~= vseq(before).push(x@));
        assert(vseq(r@) =~= vseq(v@).take(i + 1));
        i = i + 1;
    }
    assert(vseq(v@).take(v@.len() as int) =~= vseq(v@));
    r
}

/// The claims of a map that are (or are not) active.
pub open spec fn claims_with_activity(m: Map<u64, ClaimView>, active: bool) -> Map<u64, ClaimView> {
    Map::new(|k: u64| m.contains_key(k) && (m[k].lifecycle is Active) == active, |k: u64| m[k])
}

/// A listing of a map's entries by increasing key.
pub open spec fn lists<T: KeyOf>(s: Seq<T::V>, m: Map<u64, T::V>) -> bool {
    keys_increasing::<T>(s) && to_map::<T>(s) == m
}

/// The audit status of a projection: every entity listed by id, active and
/// superseded claims apart, the trail and checkpoints in order.
pub open spec fn status_holds(p: ProjectionView, st: &WorkspaceStatus) -> bool {
    &&& opt_objective(st.objective) == p.objective
    &&& lists::<WorkingSetEntry>(vseq(st.working_set@), p.working_set)
    &&& vseq(st.navigation_trail@) == p.navigation_trail
    &&& lists::<Observation>(vseq(st.observations@), p.observations)
    &&& lists::<Claim>(vseq(st.claims@), claims_with_activity(p.claims, true))
    &&& lists::<Claim>(vseq(st.superseded_claims@), claims_with_activity(p.claims, false))
    &&& lists::<Evidence>(vseq(st.evidence@), p.evidence)
    &&& lists::<Finding>(vseq(st.findings@), p.findings)
    &&& lists::<Transaction>(vseq(st.transactions@), p.transactions)
    &&& vseq(st.checkpoints@) == p.checkpoints
    &&& st.observations_since_last_claim == p.observations_since_last_claim as usize
}

proof fn lemma_key_absent(s: Seq<ClaimView>, k: u64)
    requires
        forall|i: int| 0 <= i < s.len() ==> Claim::key_of(#[trigger] s[i]) < k,
    ensures
        !to_map::<Claim>(s).contains_key(k),
{
    lemma_to_map_dom::<Claim>(s, k);
}

fn split_claims(claims: &Vec<Claim>) -> (r: (Vec<Claim>, Vec<Claim>))
    requires
        keys_increasing::<Claim>(vseq(claims@)),
    ensures
        lists::<Claim>(vseq(r.0@), claims_with_activity(to_map::<Claim>(vseq(claims@)), true)),
        lists::<Claim>(vseq(r.1@), claims_with_activity(to_map::<Claim>(vseq(claims@)), false)),
{
    let ghost cv = vseq(claims@);
    let mut active: Vec<Claim> = Vec::new();
    let mut inactive: Vec<Claim> = Vec::new();
    let mut i: usize = 0;
    proof {
        assert(cv.take(0) =~= Seq::<ClaimView>::empty());
        assert(claims_with_activity(to_map::<Claim>(cv.take(0)), true) =~= Map::<u64, ClaimView>::empty());
        assert(claims_with_activity(to_map::<Claim>(cv.take(0)), false) =~= Map::<u64, ClaimView>::empty());
        assert(vseq(active@) =~= Seq::<ClaimView>::empty());
        assert(vseq(inactive@) =~= Seq::<ClaimView>::empty());
    }
    while i < claims.len()
        invariant
            i <= claims@.len(),
            cv == vseq(claims@),
            keys_increasing::<Claim>(cv),
            lists::<Claim>(vseq(active@), claims_with_activity(to_map::<Claim>(cv.take(i as int)), true)),
            lists::<Claim>(vseq(inactive@), claims_with_activity(to_map::<Claim>(cv.take(i as int)), false)),
            forall|j: int| 0 <= j < active@.len() ==> exists|m: int| 0 <= m < i && #[trigger] vseq(active@)[j] == cv[m],
            forall|j: int| 0 <= j < inactive@.len() ==> exists|m: int| 0 <= m < i && #[trigger] vseq(inactive@)[j] == cv[m],
        decreases claims.len() - i,
    {
        let c = claims[i].clone();
        let ghost t = cv.take(i as int);
        let ghost t1 = cv.take(i + 1);
        proof {
            assert(t1.drop_last() =~= t);
            assert(t1.last() == c@);
            assert forall|m: int| 0 <= m < t.len() implies Claim::key_of(#[trigger] t[m]) < c@.id by {
                assert(t[m] == cv[m]);
            }
            lemma_key_absent(t, c@.id);
        }
        if c.lifecycle.is_active() {
            let ghost before = active@;
            active.push(c);
            proof {
                assert(vseq(active@) =~= vseq(before).push(c@));
                assert(vseq(active@).drop_last() =~= vseq(before));
                assert(to_map::<Claim>(vseq(active@)) == to_map::<Claim>(vseq(before)).insert(c@.id, c@));
                assert forall|a: int, b: int| 0 <= a < b < vseq(active@).len() implies Claim::key_of(
                    #[trigger] vseq(active@)[a],
                ) < Claim::key_of(#[trigger] vseq(active@)[b]) by {
                    if b == vseq(active@).len() - 1 {
                        let m = choose|m: int| 0 <= m < i && #[trigger] vseq(before)[a] == cv[m];
                    }
                }
                assert(claims_with_activity(to_map::<Claim>(t1), true) =~= claims_with_activity(
                    to_map::<Claim>(t),
                    true,
                ).insert(c@.id, c@));
                assert(claims_with_activity(to_map::<Claim>(t1), false) =~= claims_with_activity(
                    to_map::<Claim>(t),
                    false,
                ));
                assert forall|j: int| 0 <= j < active@.len() implies exists|m: int| 0 <= m < i + 1 && #[trigger] vseq(active@)[j] == cv[m] by {
                    if j == active@.len() - 1 {
                        assert(vseq(active@)[j] == cv[i as int]);
                    } else {
                        let m = choose|m: int| 0 <= m < i && #[trigger] vseq(before)[j] == cv[m];
                        assert(vseq(active@)[j] == cv[m]);
                    }
                }
            }
        } else {
            let ghost before = inactive@;
            inactive.push(c);
            proof {
                assert(vseq(inactive@) =~= vseq(before).push(c@));
                assert(vseq(inactive@).drop_last() =~= vseq(before));
                assert(to_map::<Claim>(vseq(inactive@)) == to_map::<Claim>(vseq(before)).insert(c@.id, c@));
                assert forall|a: int, b: int| 0 <= a < b < vseq(inactive@).len() implies Claim::key_of(
                    #[trigger] vseq(inactive@)[a],
                ) < Claim::key_of(#[trigger] vseq(inactive@)[b]) by {
                    if b == vseq(inactive@).len() - 1 {
                        let m = choose|m: int| 0 <= m < i && #[trigger] vseq(before)[a] == cv[m];
                    }
                }
                assert(claims_with_activity(to_map::<Claim>(t1), false) =~= claims_with_activity(
                    to_map::<Claim>(t),
                    false,
                ).insert(c@.id, c@));
                assert(claims_with_activity(to_map::<Claim>(t1), true) =~= claims_with_activity(
                    to_map::<Claim>(t),
                    true,
                ));
                assert forall|j: int| 0 <= j < inactive@.len() implies exists|m: int| 0 <= m < i + 1 && #[trigger] vseq(inactive@)[j] == cv[m] by {
                    if j == inactive@.len() - 1 {
                        assert(vseq(inactive@)[j] == cv[i as int]);
                    } else {
                        let m = choose|m: int| 0 <= m < i && #[trigger] vseq(before)[j] == cv[m];
                        assert(vseq(inactive@)[j] == cv[m]);
                    }
                }
            }
        }
        i = i + 1;
    }
    assert(cv.take(claims@.len() as int) =~= cv);
    (active, inactive)
}

/// The audit status of a projection.
pub fn status_of(p: &Projection) -> (r: WorkspaceStatus)
    requires
        p.wf(),
    ensures
        status_holds(p@, &r),
{
    let (claims, superseded_claims) = split_claims(&p.claims);
    WorkspaceStatus {
        objective: clone_opt_objective(&p.objective),
        working_set: clone_workingsetentrys(&p.working_set),
        navigation_trail: clone_workingsetentrys(&p.navigation_trail),
        observations: clone_observations(&p.observations),
        claims,
        superseded_claims,
        evidence: clone_evidences(&p.evidence),
        findings: clone_findings(&p.findings),
        transactions: clone_transactions(&p.transactions),
        checkpoints: clone_checkpointmarkers(&p.checkpoints),
        observations_since_last_claim: #[verifier::truncate] (p.observations_since_last_claim as usize),
    }
}

} // verus!

//! The fused belief operation: a claim that rests on cited paths, each
//! supported by the freshest current observation of the path or by a new
//! capture of it. Capturing and reconciling read files and are the caller's;
//! what is refused, which paths count, when an observation is reused and
//! what is recorded are decided here.

use vstd::prelude::*;
use crate::error::WorkspaceError;
use crate::model::{
    Belief, BeliefSupport, ClaimScopeStrategy, FreshnessWithinScope, Observation, ObservationSelector,
    ObservationView,
};
use crate::state::ProjectionView;
use crate::text::strings_view;
use crate::paths::{is_relative_path, validate_relative_path};
use crate::reconcile::LocationRead;
use crate::text::{is_blank, is_blank_spec, str_equal};
use crate::workspace::{
    claim_inputs_spec, claim_recording, first_invalid_path, first_missing, siblings_in_scope,
    DependencyFingerprint, Workspace,
};

verus! {

/// Why a belief is refused before anything is read, if it is.
pub open spec fn belief_refusal(statement: Seq<char>, cited: nat) -> Option<Seq<char>> {
    if is_blank_spec(statement) {
        Some("statement must not be empty"@)
    } else if cited == 0 {
        Some("a belief must rest on at least one cited path"@)
    } else {
        None
    }
}

/// Check a belief before any path is read: it needs a statement and at least
/// one cited path.
pub fn check_belief(statement: &str, rests_on: &Vec<String>) -> (r: Result<(), WorkspaceError>)
    ensures
        match belief_refusal(statement@, rests_on@.len()) {
            Some(m) => r matches Err(WorkspaceError::InvalidClaim(e)) && e@ == m,
            None => r is Ok,
        },
{
    if is_blank(statement) {
        return Err(WorkspaceError::InvalidClaim("statement must not be empty".to_owned()));
    }
    if rests_on.len() == 0 {
        return Err(WorkspaceError::InvalidClaim("a belief must rest on at least one cited path".to_owned()));
    }
    Ok(())
}

/// The next cited path to support, given the paths already supported: an
/// invalid path is refused, and a path cited twice is one citation (`None`).
pub fn next_belief_path(seen: &Vec<String>, path: &str) -> (r: Result<Option<String>, WorkspaceError>)
    ensures
        !is_relative_path(path@) ==> (r matches Err(WorkspaceError::InvalidPath(m)) && m@ == path@),
        is_relative_path(path@) ==> if crate::text::strings_view(seen@).contains(path@) {
            r matches Ok(None)
        } else {
            r matches Ok(Some(p)) && p@ == path@
        },
{
    let p = match validate_relative_path(path) {
        Ok(p) => p,
        Err(e) => return Err(e),
    };
    let mut i: usize = 0;
    while i < seen.len()
        invariant
            i <= seen@.len(),
            p@ == path@,
            is_relative_path(path@),
            forall|k: int| 0 <= k < i ==> seen@[k]@ != path@,
        decreases seen@.len() - i,
    {
        if str_equal(seen[i].as_str(), p.as_str()) {
            assert(crate::text::strings_view(seen@)[i as int] == path@);
            return Ok(None);
        }
        i = i + 1;
    }
    proof {
        if crate::text::strings_view(seen@).contains(path@) {
            let k = choose|k: int| 0 <= k < seen@.len() && crate::text::strings_view(seen@)[k] == path@;
            assert(seen@[k]@ == path@);
        }
    }
    Ok(Some(p))
}

/// Whether a path's freshest observation, once reconciled, can support the
/// belief as it is: only a current one is reused, so recency alone never
/// promotes a stale record.
pub fn reuses(reconciled: &Observation) -> (r: bool)
    ensures
        r == (reconciled@.report.freshness_within_scope == FreshnessWithinScope::Current),
{
    reconciled.report.freshness_within_scope == FreshnessWithinScope::Current
}

/// The observation ids of the supports, in order.
pub open spec fn support_ids(supports: Seq<BeliefSupport>) -> Seq<u64> {
    supports.map_values(|s: BeliefSupport| s.observation_id)
}

fn support_ids_exec(supports: &Vec<BeliefSupport>) -> (r: Vec<u64>)
    ensures
        r@ == support_ids(supports@),
{
    let mut out: Vec<u64> = Vec::new();
    let mut i: usize = 0;
    while i < supports.len()
        invariant
            i <= supports@.len(),
            out@ == support_ids(supports@).take(i as int),
        decreases supports@.len() - i,
    {
        out.push(supports[i].observation_id);
        i = i + 1;
        assert(out@ =~= support_ids(supports@).take(i as int));
    }
    assert(support_ids(supports@).take(i as int) =~= support_ids(supports@));
    out
}

/// What supporting one cited path takes: nothing for a path already
/// supported, reconciling its newest observation (to reuse it if it is
/// still current), or capturing the path when it has none.
pub enum SupportPlan {
    Duplicate,
    Candidate { path: String, observation_id: u64 },
    Capture { path: String },
}

impl Workspace {
    /// Plan the support of `cited`, given the paths already supported. An
    /// invalid path is refused.
    pub fn plan_support(&self, seen: &Vec<String>, cited: &str) -> (r: Result<SupportPlan, WorkspaceError>)
        requires
            self.wf(),
        ensures
            !is_relative_path(cited@) ==> (r matches Err(WorkspaceError::InvalidPath(m)) && m@ == cited@),
            is_relative_path(cited@) && crate::text::strings_view(seen@).contains(cited@) ==> r matches Ok(
                SupportPlan::Duplicate,
            ),
            is_relative_path(cited@) && !crate::text::strings_view(seen@).contains(cited@) ==> match r {
                Ok(SupportPlan::Candidate { path, observation_id }) => {
                    let p = self.projection();
                    &&& path@ == cited@
                    &&& p.observations.contains_key(observation_id)
                    &&& p.observations[observation_id].path == cited@
                    &&& forall|id: u64| #[trigger] p.observations.contains_key(id) && p.observations[id].path
                        == cited@ ==> id <= observation_id
                },
                Ok(SupportPlan::Capture { path }) => path@ == cited@ && forall|id: u64| #[trigger]
                    self.projection().observations.contains_key(id) ==> self.projection().observations[id].path
                        != cited@,
                _ => false,
            },
    {
        let path = match next_belief_path(seen, cited) {
            Ok(Some(p)) => p,
            Ok(None) => {
                return Ok(SupportPlan::Duplicate);
            },
            Err(e) => {
                return Err(e);
            },
        };
        match self.freshest_observation(path.as_str()) {
            Some(o) => Ok(SupportPlan::Candidate { path, observation_id: o.id }),
            None => Ok(SupportPlan::Capture { path }),
        }
    }
}

/// The cited paths in the order first cited, each once.
pub open spec fn cited_paths(rests_on: Seq<Seq<char>>) -> Seq<Seq<char>>
    decreases rests_on.len(),
{
    if rests_on.len() == 0 {
        Seq::empty()
    } else {
        let front = cited_paths(rests_on.drop_last());
        if front.contains(rests_on.last()) {
            front
        } else {
            front.push(rests_on.last())
        }
    }
}

/// `id` is the newest observation of `path`.
pub open spec fn newest(obs: Map<u64, ObservationView>, path: Seq<char>, id: u64) -> bool {
    &&& obs.contains_key(id)
    &&& obs[id].path == path
    &&& forall|j: u64| #[trigger] obs.contains_key(j) && obs[j].path == path ==> j <= id
}

/// `id` is the newest observation of `path` among those numbered below
/// `bound`.
pub open spec fn newest_below(obs: Map<u64, ObservationView>, path: Seq<char>, bound: int, id: u64) -> bool {
    &&& obs.contains_key(id)
    &&& obs[id].path == path
    &&& id < bound
    &&& forall|j: u64| #[trigger] obs.contains_key(j) && obs[j].path == path && j < bound ==> j <= id
}

/// One support of a belief in `statement`, for the cited `path`, as the
/// state shows it, where observations numbered from `first_new` on were
/// captured for the belief: the support names the path; its observation is
/// the newest of the path, current, and focused with the statement as
/// reason; it is reused exactly when it was recorded before the belief
/// began, and otherwise is a whole-file capture of the belief, made because
/// the newest earlier observation of the path, if any, was not current.
pub open spec fn support_holds(
    p: ProjectionView,
    statement: Seq<char>,
    first_new: u64,
    path: Seq<char>,
    s: BeliefSupport,
) -> bool {
    let id = s.observation_id;
    &&& s.path@ == path
    &&& newest(p.observations, path, id)
    &&& p.observations[id].report.freshness_within_scope == FreshnessWithinScope::Current
    &&& p.working_set.contains_key(id)
    &&& p.working_set[id].reason == statement
    &&& s.reused == (id < first_new)
    &&& !s.reused ==> {
        &&& p.observations[id].selector == ObservationSelector::WholeFile
        &&& p.observations[id].provider == "agent.belief"@
        &&& forall|j: u64| #[trigger] newest_below(p.observations, path, first_new as int, j)
            ==> p.observations[j].report.freshness_within_scope != FreshnessWithinScope::Current
    }
}

/// The supports of a belief resting on `rests_on`: one per cited path, in
/// the order first cited, each as `support_holds` says.
pub open spec fn supports_hold(
    p: ProjectionView,
    statement: Seq<char>,
    first_new: u64,
    rests_on: Seq<Seq<char>>,
    supports: Seq<BeliefSupport>,
) -> bool {
    let cited = cited_paths(rests_on);
    &&& supports.len() == cited.len()
    &&& forall|i: int| 0 <= i < cited.len() ==> #[trigger] support_holds(p, statement, first_new, cited[i], supports[i])
}

/// Every path is a valid repository-relative path.
pub open spec fn all_relative(paths: Seq<Seq<char>>) -> bool {
    forall|k: int| 0 <= k < paths.len() ==> is_relative_path(#[trigger] paths[k])
}

/// `paths[k]` is the first path that is not a valid repository-relative path.
pub open spec fn first_invalid_at(paths: Seq<Seq<char>>, k: int) -> bool {
    &&& 0 <= k < paths.len()
    &&& !is_relative_path(paths[k])
    &&& forall|j: int| 0 <= j < k ==> is_relative_path(#[trigger] paths[j])
}

/// The cited paths of a prefix are a prefix of the cited paths.
pub proof fn lemma_cited_prefix(s: Seq<Seq<char>>, i: int)
    requires
        0 <= i <= s.len(),
    ensures
        cited_paths(s.take(i)).len() <= cited_paths(s).len(),
        forall|k: int| 0 <= k < cited_paths(s.take(i)).len() ==> #[trigger] cited_paths(s.take(i))[k] == cited_paths(s)[k],
    decreases s.len(),
{
    if i < s.len() {
        assert(s.drop_last().take(i) =~= s.take(i));
        lemma_cited_prefix(s.drop_last(), i);
    } else {
        assert(s.take(i) =~= s);
    }
}

/// Citing one more path extends the cited paths by it, unless it was cited.
pub proof fn lemma_cited_step(s: Seq<Seq<char>>, i: int)
    requires
        0 <= i < s.len(),
    ensures
        cited_paths(s.take(i + 1)) == if cited_paths(s.take(i)).contains(s[i]) {
            cited_paths(s.take(i))
        } else {
            cited_paths(s.take(i)).push(s[i])
        },
{
    assert(s.take(i + 1).drop_last() =~= s.take(i));
}

impl Workspace {
    /// Whether `s` supports the cited `path` of a belief in `statement` as
    /// the state now shows it.
    fn support_matches(&self, statement: &str, first_new: u64, path: &str, s: &BeliefSupport) -> (r: bool)
        requires
            self.wf(),
        ensures
            r == support_holds(self.projection(), statement@, first_new, path@, *s),
    {
        let ghost p = self.projection();
        if !str_equal(s.path.as_str(), path) {
            return false;
        }
        let o = match self.freshest_observation(path) {
            Some(o) => o,
            None => {
                proof {
                    if newest(p.observations, path@, s.observation_id) {
                        assert(p.observations[s.observation_id].path == path@);
                    }
                }
                return false;
            },
        };
        if o.id != s.observation_id {
            proof {
                if newest(p.observations, path@, s.observation_id) {
                    assert(p.observations.contains_key(o@.id));
                    assert(o@.id <= s.observation_id);
                    assert(s.observation_id <= o@.id);
                }
            }
            return false;
        }
        if !(o.report.freshness_within_scope == FreshnessWithinScope::Current) {
            return false;
        }
        let e = match self.focus_at(o.id) {
            Some(e) => e,
            None => {
                return false;
            },
        };
        if !str_equal(e.reason.as_str(), statement) {
            return false;
        }
        if s.reused != (o.id < first_new) {
            return false;
        }
        if !s.reused {
            let whole = match o.selector {
                ObservationSelector::WholeFile => true,
                _ => false,
            };
            if !whole || !str_equal(o.provider.as_str(), "agent.belief") {
                return false;
            }
            match self.newest_observation_below(path, first_new) {
                Some(prev) => {
                    if prev.report.freshness_within_scope == FreshnessWithinScope::Current {
                        proof {
                            assert(newest_below(p.observations, path@, first_new as int, prev@.id));
                        }
                        return false;
                    }
                    proof {
                        assert forall|j: u64| #[trigger] newest_below(p.observations, path@, first_new as int, j)
                            implies p.observations[j].report.freshness_within_scope != FreshnessWithinScope::Current by {
                            assert(j <= prev@.id);
                            assert(prev@.id <= j);
                        }
                    }
                },
                None => {
                    proof {
                        assert forall|j: u64| #[trigger] newest_below(p.observations, path@, first_new as int, j)
                            implies p.observations[j].report.freshness_within_scope != FreshnessWithinScope::Current by {
                            assert(p.observations.contains_key(j));
                        }
                    }
                },
            }
        }
        true
    }

    /// Record a belief in `statement` resting on the paths `rests_on`, once
    /// every cited path is supported: each path cited once, in the order
    /// first cited, by its newest observation, reused when it was recorded
    /// before the belief began (observations numbered below `first_new`)
    /// and current, or else by a whole-file capture made for the belief;
    /// each support focused with the statement as reason. The supports are
    /// checked against the state before anything is recorded; the claim
    /// rests on their observations, with the sibling dependencies that the
    /// strategy takes into scope.
    pub fn record_belief(
        &mut self,
        statement: String,
        rests_on: &Vec<String>,
        supports: Vec<BeliefSupport>,
        first_new: u64,
        scope_strategy: ClaimScopeStrategy,
        conservative: Vec<DependencyFingerprint>,
        revision: &str,
        reads: &Vec<LocationRead>,
    ) -> (r: Result<Belief, WorkspaceError>)
        requires
            old(self).wf(),
            first_missing(old(self).projection().observations, support_ids(supports@)) is None
                ==> reads@.len() == claim_inputs_spec(
                old(self).projection().observations,
                support_ids(supports@),
                Seq::empty(),
                siblings_in_scope(scope_strategy, conservative@),
            ).len(),
        ensures
            final(self).wf(),
            belief_refusal(statement@, rests_on@.len()) matches Some(m) ==> final(self).records()
                == old(self).records() && (r matches Err(WorkspaceError::InvalidClaim(e)) && e@ == m),
            belief_refusal(statement@, rests_on@.len()) is None && !all_relative(strings_view(rests_on@))
                ==> final(self).records() == old(self).records() && (r matches Err(WorkspaceError::InvalidPath(m))
                && exists|k: int| first_invalid_at(strings_view(rests_on@), k) && m@ == strings_view(rests_on@)[k]),
            belief_refusal(statement@, rests_on@.len()) is None && all_relative(strings_view(rests_on@))
                && !supports_hold(old(self).projection(), statement@, first_new, strings_view(rests_on@), supports@)
                ==> final(self).records() == old(self).records() && (r matches Err(WorkspaceError::InvalidClaim(m))
                && m@ == "the supports do not match the cited paths"@),
            belief_refusal(statement@, rests_on@.len()) is None && all_relative(strings_view(rests_on@))
                && supports_hold(old(self).projection(), statement@, first_new, strings_view(rests_on@), supports@)
                ==> claim_recording(
                *old(self),
                *final(self),
                statement@,
                support_ids(supports@),
                Seq::empty(),
                siblings_in_scope(scope_strategy, conservative@),
                scope_strategy,
                revision@,
                reads@,
                match r {
                    Ok(b) => Ok(b.claim),
                    Err(e) => Err(e),
                },
            ),
            r matches Ok(b) ==> b.supports@ == supports@,
    {
        if is_blank(statement.as_str()) {
            return Err(WorkspaceError::InvalidClaim("statement must not be empty".to_owned()));
        }
        if rests_on.len() == 0 {
            return Err(WorkspaceError::InvalidClaim("a belief must rest on at least one cited path".to_owned()));
        }
        let ghost cited_all = strings_view(rests_on@);
        let mut i: usize = 0;
        while i < rests_on.len()
            invariant
                i <= rests_on@.len(),
                self.wf(),
                self.records() == old(self).records(),
                !is_blank_spec(statement@),
                rests_on@.len() > 0,
                cited_all == strings_view(rests_on@),
                forall|k: int| 0 <= k < i ==> is_relative_path(#[trigger] cited_all[k]),
            decreases rests_on@.len() - i,
        {
            match validate_relative_path(rests_on[i].as_str()) {
                Ok(_) => {},
                Err(e) => {
                    proof {
                        assert(first_invalid_at(cited_all, i as int));
                    }
                    return Err(e);
                },
            }
            i = i + 1;
        }
        let ghost p = self.projection();
        let mut seen: Vec<String> = Vec::new();
        let mut i: usize = 0;
        proof {
            assert(cited_all.take(0) =~= Seq::<Seq<char>>::empty());
            assert(strings_view(seen@) =~= Seq::<Seq<char>>::empty());
        }
        while i < rests_on.len()
            invariant
                i <= rests_on@.len(),
                self.wf(),
                self.records() == old(self).records(),
                !is_blank_spec(statement@),
                rests_on@.len() > 0,
                p == self.projection(),
                p == old(self).projection(),
                cited_all == strings_view(rests_on@),
                all_relative(cited_all),
                strings_view(seen@) == cited_paths(cited_all.take(i as int)),
                seen@.len() <= supports@.len(),
                forall|k: int| 0 <= k < seen@.len() ==> #[trigger] support_holds(
                    p,
                    statement@,
                    first_new,
                    strings_view(seen@)[k],
                    supports@[k],
                ),
            decreases rests_on@.len() - i,
        {
            proof {
                lemma_cited_step(cited_all, i as int);
                assert(is_relative_path(cited_all[i as int]));
            }
            match next_belief_path(&seen, rests_on[i].as_str()) {
                Ok(None) => {},
                Ok(Some(path)) => {
                    let k = seen.len();
                    if k >= supports.len() || !self.support_matches(statement.as_str(), first_new, path.as_str(), &supports[k]) {
                        proof {
                            lemma_cited_prefix(cited_all, i + 1);
                            assert(cited_paths(cited_all.take(i + 1))[k as int] == path@);
                        }
                        return Err(WorkspaceError::InvalidClaim("the supports do not match the cited paths".to_owned()));
                    }
                    seen.push(path);
                    proof {
                        assert(strings_view(seen@) =~= cited_paths(cited_all.take(i + 1)));
                    }
                },
                Err(e) => {
                    return Err(e);
                },
            }
            i = i + 1;
        }
        proof {
            assert(cited_all.take(i as int) =~= cited_all);
        }
        if seen.len() != supports.len() {
            return Err(WorkspaceError::InvalidClaim("the supports do not match the cited paths".to_owned()));
        }
        proof {
            assert(supports_hold(p, statement@, first_new, cited_all, supports@));
        }
        let ids = support_ids_exec(&supports);
        let declared: Vec<DependencyFingerprint> = Vec::new();
        proof {
            assert(declared@ =~= Seq::<DependencyFingerprint>::empty());
            assert(first_invalid_path(declared@) is None);
        }
        match self.record_claim_with_scope(statement, ids, declared, conservative, scope_strategy, revision, reads) {
            Ok(claim) => Ok(Belief { claim, supports }),
            Err(e) => Err(e),
        }
    }
}

} // verus!

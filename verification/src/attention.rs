//! The bounded working-set attention model: focused locations joined to the
//! observations they cite, uncited observation candidates, and the recent
//! navigation trail. Each section is capped with an explicit omission count.

use vstd::prelude::*;

use crate::model::{
    Claim, ClaimView, FreshnessWithinScope, Observation, ObservationSelector, ObservationView,
    WorkingSetEntry, WorkingSetEntryView,
};
use crate::projection::{
    count_where, freshness_rank, freshness_rank_spec, lemma_select_len, lemma_take_succ, min_nat,
    select_where, WorkspaceStatus,
};
use crate::sort::{stable_order, stable_sort_order};
use crate::state::vec_contains;
use crate::store::vseq;

verus! {

pub const WORKING_SET_LOCATION_LIMIT: usize = 12;

pub const WORKING_SET_UNCITED_LIMIT: usize = 12;

/// How many of the most recent uncited observations bounded orientation
/// reconciles and considers as candidates.
pub const WORKING_SET_UNCITED_CANDIDATE_LIMIT: usize = 24;

pub const WORKING_SET_TRAIL_LIMIT: usize = 16;

/// A focused working-set entry resolved into the coordinates of the
/// observation it cites.
pub struct SemanticLocation {
    pub observation_id: u64,
    pub path: String,
    pub selector: ObservationSelector,
    pub observed_revision: String,
    /// The container fingerprint at observation time.
    pub relocation_fingerprint: String,
    pub freshness: FreshnessWithinScope,
    pub reason: String,
    pub focus_sequence: u64,
}

pub struct SemanticLocationView {
    pub observation_id: u64,
    pub path: Seq<char>,
    pub selector: ObservationSelector,
    pub observed_revision: Seq<char>,
    pub relocation_fingerprint: Seq<char>,
    pub freshness: FreshnessWithinScope,
    pub reason: Seq<char>,
    pub focus_sequence: u64,
}

impl View for SemanticLocation {
    type V = SemanticLocationView;

    open spec fn view(&self) -> SemanticLocationView {
        SemanticLocationView {
            observation_id: self.observation_id,
            path: self.path@,
            selector: self.selector,
            observed_revision: self.observed_revision@,
            relocation_fingerprint: self.relocation_fingerprint@,
            freshness: self.freshness,
            reason: self.reason@,
            focus_sequence: self.focus_sequence,
        }
    }
}

impl Clone for SemanticLocation {
    fn clone(&self) -> (r: Self)
        ensures
            r@ == self@,
    {
        SemanticLocation {
            observation_id: self.observation_id,
            path: self.path.clone(),
            selector: self.selector,
            observed_revision: self.observed_revision.clone(),
            relocation_fingerprint: self.relocation_fingerprint.clone(),
            freshness: self.freshness,
            reason: self.reason.clone(),
            focus_sequence: self.focus_sequence,
        }
    }
}

/// A current observation that no active claim cites and that is not focused.
pub struct UncitedObservation {
    pub observation_id: u64,
    pub path: String,
    pub selector: ObservationSelector,
}

pub struct UncitedObservationView {
    pub observation_id: u64,
    pub path: Seq<char>,
    pub selector: ObservationSelector,
}

impl View for UncitedObservation {
    type V = UncitedObservationView;

    open spec fn view(&self) -> UncitedObservationView {
        UncitedObservationView {
            observation_id: self.observation_id,
            path: self.path@,
            selector: self.selector,
        }
    }
}

pub struct WorkingSetView {
    pub locations: Vec<SemanticLocation>,
    pub locations_omitted: usize,
    pub uncited: Vec<UncitedObservation>,
    pub uncited_omitted: usize,
    /// Most recent focus first; revisits included.
    pub trail: Vec<WorkingSetEntry>,
    pub trail_omitted: usize,
}

// ---------------------------------------------------------------------------
// Locations.
/// The observation a listing holds under `id`; the last one wins.
pub open spec fn observation_by_id(obs: Seq<ObservationView>, id: u64) -> Option<ObservationView>
    decreases obs.len(),
{
    if obs.len() == 0 {
        None
    } else if obs.last().id == id {
        Some(obs.last())
    } else {
        observation_by_id(obs.drop_last(), id)
    }
}

pub open spec fn location_of(e: WorkingSetEntryView, o: ObservationView) -> SemanticLocationView {
    SemanticLocationView {
        observation_id: e.observation_id,
        path: o.path,
        selector: o.selector,
        observed_revision: o.observed_revision,
        relocation_fingerprint: o.observed_container_fingerprint,
        freshness: o.report.freshness_within_scope,
        reason: e.reason,
        focus_sequence: e.focus_sequence,
    }
}

/// Working-set entries joined to their observations, in entry order; an
/// entry whose observation is absent is dropped.
pub open spec fn joined_locations(ws: Seq<WorkingSetEntryView>, obs: Seq<ObservationView>) -> Seq<
    SemanticLocationView,
>
    decreases ws.len(),
{
    if ws.len() == 0 {
        Seq::empty()
    } else {
        let prev = joined_locations(ws.drop_last(), obs);
        match observation_by_id(obs, ws.last().observation_id) {
            Some(o) => prev.push(location_of(ws.last(), o)),
            None => prev,
        }
    }
}

/// Stale first, then unknown, then current; within a group the most
/// recently focused first.
pub open spec fn location_key(l: SemanticLocationView) -> (u64, u64) {
    (freshness_rank_spec(l.freshness), (u64::MAX - l.focus_sequence) as u64)
}

pub open spec fn location_keys(s: Seq<SemanticLocationView>) -> Seq<(u64, u64)> {
    s.map_values(|l: SemanticLocationView| location_key(l))
}

/// `s` reordered by the positions `perm`.
pub open spec fn permuted<A>(s: Seq<A>, perm: Seq<usize>) -> Seq<A> {
    Seq::new(perm.len(), |i: int| s[perm[i] as int])
}

/// The current location with the highest focus sequence (the last such one
/// on a tie).
pub open spec fn newest_current(s: Seq<SemanticLocationView>) -> Option<SemanticLocationView>
    decreases s.len(),
{
    if s.len() == 0 {
        None
    } else {
        let prev = newest_current(s.drop_last());
        if s.last().freshness == FreshnessWithinScope::Current && (prev is None
            || prev->0.focus_sequence <= s.last().focus_sequence) {
            Some(s.last())
        } else {
            prev
        }
    }
}

/// The first `WORKING_SET_LOCATION_LIMIT` ranked locations; when stale
/// history fills the cap and crowds out the newest current focus, that focus
/// takes the final slot.
pub open spec fn bounded_locations(s: Seq<SemanticLocationView>) -> Seq<SemanticLocationView> {
    let n = WORKING_SET_LOCATION_LIMIT as int;
    if s.len() <= n {
        s
    } else {
        let t = s.take(n);
        match newest_current(s) {
            Some(c) => if exists|i: int| 0 <= i < n && #[trigger] t[i].observation_id == c.observation_id {
                t
            } else {
                t.update(n - 1, c)
            },
            None => t,
        }
    }
}

// ---------------------------------------------------------------------------
// Uncited candidates.
pub open spec fn cites(cs: Seq<ClaimView>, id: u64) -> bool {
    exists|i: int| 0 <= i < cs.len() && #[trigger] cs[i].supporting_observation_ids.contains(id)
}

pub open spec fn focuses(ws: Seq<WorkingSetEntryView>, id: u64) -> bool {
    exists|i: int| 0 <= i < ws.len() && #[trigger] ws[i].observation_id == id
}

pub open spec fn is_uncited(cs: Seq<ClaimView>, ws: Seq<WorkingSetEntryView>) -> spec_fn(
    ObservationView,
) -> bool {
    |o: ObservationView| !cites(cs, o.id) && !focuses(ws, o.id)
}

pub open spec fn in_window(window: Option<Seq<u64>>, id: u64) -> bool {
    match window {
        Some(w) => w.contains(id),
        None => true,
    }
}

pub open spec fn is_window_candidate(
    cs: Seq<ClaimView>,
    ws: Seq<WorkingSetEntryView>,
    window: Option<Seq<u64>>,
) -> spec_fn(ObservationView) -> bool {
    |o: ObservationView| !cites(cs, o.id) && !focuses(ws, o.id) && in_window(window, o.id)
}

pub open spec fn observation_is_current() -> spec_fn(ObservationView) -> bool {
    |o: ObservationView| o.report.freshness_within_scope == FreshnessWithinScope::Current
}

/// Newest observation first.
pub open spec fn uncited_key(o: ObservationView) -> (u64, u64) {
    ((u64::MAX - o.id) as u64, 0)
}

pub open spec fn uncited_keys(s: Seq<ObservationView>) -> Seq<(u64, u64)> {
    s.map_values(|o: ObservationView| uncited_key(o))
}

pub open spec fn uncited_of(o: ObservationView) -> UncitedObservationView {
    UncitedObservationView { observation_id: o.id, path: o.path, selector: o.selector }
}

pub open spec fn reversed<A>(s: Seq<A>) -> Seq<A> {
    Seq::new(s.len(), |i: int| s[s.len() - 1 - i])
}

fn find_observation_last<'a>(obs: &'a Vec<Observation>, id: u64) -> (r: Option<&'a Observation>)
    ensures
        match r {
            Some(o) => observation_by_id(vseq(obs@), id) == Some(o@),
            None => observation_by_id(vseq(obs@), id) is None,
        },
{
    let mut i: usize = obs.len();
    assert(vseq(obs@).take(i as int) =~= vseq(obs@));
    while i > 0
        invariant
            i <= obs.len(),
            observation_by_id(vseq(obs@), id) == observation_by_id(vseq(obs@).take(i as int), id),
        decreases i,
    {
        let ghost t = vseq(obs@).take(i as int);
        assert(t.drop_last() =~= vseq(obs@).take(i - 1));
        if obs[i - 1].id == id {
            return Some(&obs[i - 1]);
        }
        i = i - 1;
    }
    None
}

fn claims_cite(claims: &Vec<Claim>, id: u64) -> (r: bool)
    ensures
        r == cites(vseq(claims@), id),
{
    let mut i: usize = 0;
    while i < claims.len()
        invariant
            i <= claims.len(),
            forall|k: int| 0 <= k < i ==> !(#[trigger] vseq(claims@)[k]).supporting_observation_ids.contains(id),
        decreases claims.len() - i,
    {
        if vec_contains(&claims[i].supporting_observation_ids, id) {
            assert(vseq(claims@)[i as int].supporting_observation_ids.contains(id));
            return true;
        }
        i = i + 1;
    }
    false
}

fn entries_focus(ws: &Vec<WorkingSetEntry>, id: u64) -> (r: bool)
    ensures
        r == focuses(vseq(ws@), id),
{
    let mut i: usize = 0;
    while i < ws.len()
        invariant
            i <= ws.len(),
            forall|k: int| 0 <= k < i ==> (#[trigger] vseq(ws@)[k]).observation_id != id,
        decreases ws.len() - i,
    {
        if ws[i].observation_id == id {
            assert(vseq(ws@)[i as int].observation_id == id);
            return true;
        }
        i = i + 1;
    }
    false
}

fn window_contains(window: Option<&Vec<u64>>, id: u64) -> (r: bool)
    ensures
        r == in_window(
            match window {
                Some(w) => Some(w@),
                None => None,
            },
            id,
        ),
{
    match window {
        Some(w) => vec_contains(w, id),
        None => true,
    }
}

/// The entries of `s` reordered by `perm`, cloned.
fn locations_in_order(s: &Vec<SemanticLocation>, perm: &Vec<usize>) -> (r: Vec<SemanticLocation>)
    requires
        forall|i: int| 0 <= i < perm@.len() ==> #[trigger] perm@[i] < s@.len(),
    ensures
        vseq(r@) == permuted(vseq(s@), perm@),
{
    let mut r: Vec<SemanticLocation> = Vec::new();
    let mut i: usize = 0;
    while i < perm.len()
        invariant
            i <= perm.len(),
            forall|k: int| 0 <= k < perm@.len() ==> #[trigger] perm@[k] < s@.len(),
            vseq(r@) == permuted(vseq(s@), perm@).take(i as int),
        decreases perm.len() - i,
    {
        let c = s[perm[i]].clone();
        let ghost before = r@;
        r.push(c);
        assert(vseq(r@) =~= vseq(before).push(c@));
        assert(vseq(r@) =~= permuted(vseq(s@), perm@).take(i + 1));
        i = i + 1;
    }
    assert(permuted(vseq(s@), perm@).take(perm@.len() as int) =~= permuted(vseq(s@), perm@));
    r
}

fn newest_current_index(s: &Vec<SemanticLocation>) -> (r: Option<usize>)
    ensures
        match r {
            Some(k) => k < s@.len() && newest_current(vseq(s@)) == Some(s@[k as int]@),
            None => newest_current(vseq(s@)) is None,
        },
{
    let mut best: Option<usize> = None;
    let mut i: usize = 0;
    while i < s.len()
        invariant
            i <= s.len(),
            match best {
                Some(k) => k < i && newest_current(vseq(s@).take(i as int)) == Some(s@[k as int]@),
                None => newest_current(vseq(s@).take(i as int)) is None,
            },
        decreases s.len() - i,
    {
        proof {
            lemma_take_succ(vseq(s@), i as int);
        }
        if s[i].freshness == FreshnessWithinScope::Current {
            match best {
                None => {
                    best = Some(i);
                },
                Some(k) => {
                    if s[k].focus_sequence <= s[i].focus_sequence {
                        best = Some(i);
                    }
                },
            }
        }
        i = i + 1;
    }
    assert(vseq(s@).take(s@.len() as int) =~= vseq(s@));
    best
}

/// Apply the location cap to an already ranked listing.
fn bound_locations(s: Vec<SemanticLocation>) -> (r: Vec<SemanticLocation>)
    ensures
        vseq(r@) == bounded_locations(vseq(s@)),
{
    let n = WORKING_SET_LOCATION_LIMIT;
    if s.len() <= n {
        return s;
    }
    let newest = newest_current_index(&s);
    let mut t: Vec<SemanticLocation> = Vec::new();
    let mut i: usize = 0;
    while i < n
        invariant
            i <= n,
            n == WORKING_SET_LOCATION_LIMIT,
            n < s@.len(),
            vseq(t@) == vseq(s@).take(i as int),
        decreases n - i,
    {
        let c = s[i].clone();
        let ghost before = t@;
        t.push(c);
        assert(vseq(t@) =~= vseq(before).push(c@));
        assert(vseq(t@) =~= vseq(s@).take(i + 1));
        i = i + 1;
    }
    match newest {
        None => t,
        Some(k) => {
            let id = s[k].observation_id;
            let mut present = false;
            let mut j: usize = 0;
            while j < n
                invariant
                    j <= n,
                    n == WORKING_SET_LOCATION_LIMIT,
                    t@.len() == n,
                    present == exists|m: int| 0 <= m < j && #[trigger] vseq(t@)[m].observation_id == id,
                decreases n - j,
            {
                if t[j].observation_id == id {
                    present = true;
                }
                proof {
                    if present && !(exists|m: int| 0 <= m < j && #[trigger] vseq(t@)[m].observation_id == id) {
                        assert(vseq(t@)[j as int].observation_id == id);
                    }
                }
                j = j + 1;
            }
            if present {
                t
            } else {
                let c = s[k].clone();
                let ghost before = vseq(t@);
                t.set(n - 1, c);
                assert(vseq(t@) =~= before.update(n - 1, s@[k as int]@));
                t
            }
        },
    }
}

pub open spec fn opt_window(window: Option<&Vec<u64>>) -> Option<Seq<u64>> {
    match window {
        Some(w) => Some(w@),
        None => None,
    }
}

/// What the attention model holds for a status whose uncited candidates are
/// limited to `window`.
pub open spec fn working_set_view_holds(
    st: &WorkspaceStatus,
    window: Option<Seq<u64>>,
    r: &WorkingSetView,
) -> bool {
    let joined = joined_locations(vseq(st.working_set@), vseq(st.observations@));
    let cs = vseq(st.claims@);
    let ws = vseq(st.working_set@);
    let obs = vseq(st.observations@);
    let candidates = select_where(obs, is_window_candidate(cs, ws, window));
    let current = select_where(candidates, observation_is_current());
    let served = min_nat(current.len(), WORKING_SET_UNCITED_LIMIT as nat);
    let trail = st.navigation_trail@;
    let shown = min_nat(trail.len(), WORKING_SET_TRAIL_LIMIT as nat);
    &&& exists|perm: Seq<usize>|
        #[trigger] stable_order(location_keys(joined), perm) && vseq(r.locations@)
            == bounded_locations(permuted(joined, perm))
    &&& r.locations_omitted == joined.len() - min_nat(joined.len(), WORKING_SET_LOCATION_LIMIT as nat)
    &&& exists|perm: Seq<usize>|
        #[trigger] stable_order(uncited_keys(current), perm) && vseq(r.uncited@)
            == permuted(current, perm).take(served as int).map_values(
            |o: ObservationView| uncited_of(o),
        )
    &&& r.uncited_omitted == (count_where(obs, is_uncited(cs, ws)) - candidates.len()) + (
    current.len() - served)
    &&& vseq(r.trail@) == reversed(vseq(trail)).take(shown as int)
    &&& r.trail_omitted == trail.len() - shown
}

impl WorkspaceStatus {
    /// The working-set attention model over every observation.
    pub fn working_set_view(&self) -> (r: WorkingSetView)
        ensures
            working_set_view_holds(self, None, &r),
    {
        self.working_set_view_with_uncited_candidates(None)
    }

    /// The attention model: focused locations ranked stale first and then
    /// most recently focused, capped with the newest current focus kept in
    /// view; current uncited observations among `window` (all of them with
    /// `None`) newest first, capped; the navigation trail newest first,
    /// capped. Uncited observations outside the window count as omitted.
    pub fn working_set_view_with_uncited_candidates(&self, window: Option<&Vec<u64>>) -> (r:
        WorkingSetView)
        ensures
            working_set_view_holds(self, opt_window(window), &r),
    {
        let ghost joined = joined_locations(vseq(self.working_set@), vseq(self.observations@));
        let ghost cs = vseq(self.claims@);
        let ghost ws = vseq(self.working_set@);
        let ghost obs = vseq(self.observations@);
        // Locations.
        let mut located: Vec<SemanticLocation> = Vec::new();
        let mut i: usize = 0;
        while i < self.working_set.len()
            invariant
                i <= self.working_set.len(),
                vseq(located@) == joined_locations(vseq(self.working_set@).take(i as int), vseq(self.observations@)),
            decreases self.working_set.len() - i,
        {
            proof {
                lemma_take_succ(vseq(self.working_set@), i as int);
            }
            let e = &self.working_set[i];
            match find_observation_last(&self.observations, e.observation_id) {
                Some(o) => {
                    located.push(
                        SemanticLocation {
                            observation_id: e.observation_id,
                            path: o.path.clone(),
                            selector: o.selector,
                            observed_revision: o.observed_revision.clone(),
                            relocation_fingerprint: o.observed_container_fingerprint.clone(),
                            freshness: o.report.freshness_within_scope,
                            reason: e.reason.clone(),
                            focus_sequence: e.focus_sequence,
                        },
                    );
                    assert(vseq(located@) =~= joined_locations(vseq(self.working_set@).take(i + 1), vseq(self.observations@)));
                },
                None => {},
            }
            i = i + 1;
        }
        assert(vseq(self.working_set@).take(self.working_set@.len() as int) =~= vseq(self.working_set@));
        let mut keys: Vec<(u64, u64)> = Vec::new();
        let mut k: usize = 0;
        while k < located.len()
            invariant
                k <= located.len(),
                keys@ == location_keys(vseq(located@)).take(k as int),
            decreases located.len() - k,
        {
            keys.push((freshness_rank(located[k].freshness), u64::MAX - located[k].focus_sequence));
            assert(keys@ =~= location_keys(vseq(located@)).take(k + 1));
            k = k + 1;
        }
        assert(keys@ =~= location_keys(vseq(located@)));
        let order = stable_sort_order(&keys);
        let ranked = locations_in_order(&located, &order);
        let total_located = located.len();
        let locations_omitted = if total_located > WORKING_SET_LOCATION_LIMIT {
            total_located - WORKING_SET_LOCATION_LIMIT
        } else {
            0
        };
        let locations = bound_locations(ranked);
        // Uncited candidates.
        let mut uncited_count: usize = 0;
        let mut candidates: Vec<&Observation> = Vec::new();
        let mut j: usize = 0;
        while j < self.observations.len()
            invariant
                j <= self.observations.len(),
                obs == vseq(self.observations@),
                cs == vseq(self.claims@),
                ws == vseq(self.working_set@),
                uncited_count == count_where(obs.take(j as int), is_uncited(cs, ws)),
                uncited_count <= j,
                candidates@.map_values(|o: &Observation| o@) == select_where(
                    obs.take(j as int),
                    is_window_candidate(cs, ws, opt_window(window)),
                ),
            decreases self.observations.len() - j,
        {
            proof {
                lemma_take_succ(obs, j as int);
            }
            let o = &self.observations[j];
            let uncited = !claims_cite(&self.claims, o.id) && !entries_focus(&self.working_set, o.id);
            if uncited {
                uncited_count = uncited_count + 1;
                if window_contains(window, o.id) {
                    let ghost before = candidates@;
                    candidates.push(o);
                    assert(candidates@.map_values(|o: &Observation| o@) =~= before.map_values(
                        |o: &Observation| o@,
                    ).push(o@));
                }
            }
            j = j + 1;
        }
        assert(obs.take(self.observations@.len() as int) =~= obs);
        let ghost cand = candidates@.map_values(|o: &Observation| o@);
        let mut current: Vec<&Observation> = Vec::new();
        let mut m: usize = 0;
        while m < candidates.len()
            invariant
                m <= candidates.len(),
                cand == candidates@.map_values(|o: &Observation| o@),
                current@.map_values(|o: &Observation| o@) == select_where(
                    cand.take(m as int),
                    observation_is_current(),
                ),
            decreases candidates.len() - m,
        {
            proof {
                lemma_take_succ(cand, m as int);
            }
            if candidates[m].report.freshness_within_scope == FreshnessWithinScope::Current {
                let ghost before = current@;
                current.push(candidates[m]);
                assert(current@.map_values(|o: &Observation| o@) =~= before.map_values(
                    |o: &Observation| o@,
                ).push(cand[m as int]));
            }
            m = m + 1;
        }
        assert(cand.take(candidates@.len() as int) =~= cand);
        let ghost cur = current@.map_values(|o: &Observation| o@);
        proof {
            lemma_select_len(obs, is_uncited(cs, ws));
            lemma_select_len(obs, is_window_candidate(cs, ws, opt_window(window)));
            lemma_select_len(cand, observation_is_current());
            lemma_window_within_uncited(obs, cs, ws, opt_window(window));
        }
        let mut ukeys: Vec<(u64, u64)> = Vec::new();
        let mut q: usize = 0;
        while q < current.len()
            invariant
                q <= current.len(),
                cur == current@.map_values(|o: &Observation| o@),
                ukeys@ == uncited_keys(cur).take(q as int),
            decreases current.len() - q,
        {
            ukeys.push((u64::MAX - current[q].id, 0));
            assert(ukeys@ =~= uncited_keys(cur).take(q + 1));
            q = q + 1;
        }
        assert(ukeys@ =~= uncited_keys(cur));
        let uorder = stable_sort_order(&ukeys);
        let served = if current.len() < WORKING_SET_UNCITED_LIMIT {
            current.len()
        } else {
            WORKING_SET_UNCITED_LIMIT
        };
        let mut uncited: Vec<UncitedObservation> = Vec::new();
        let mut u: usize = 0;
        while u < served
            invariant
                u <= served,
                served <= current@.len(),
                cur == current@.map_values(|o: &Observation| o@),
                stable_order(uncited_keys(cur), uorder@),
                vseq(uncited@) == permuted(cur, uorder@).take(u as int).map_values(
                    |o: ObservationView| uncited_of(o),
                ),
            decreases served - u,
        {
            let o = current[uorder[u]];
            let ghost before = uncited@;
            let item = UncitedObservation { observation_id: o.id, path: o.path.clone(), selector: o.selector };
            uncited.push(item);
            assert(vseq(uncited@) =~= vseq(before).push(item@));
            assert(item@ == uncited_of(cur[uorder@[u as int] as int]));
            assert(vseq(uncited@) =~= permuted(cur, uorder@).take(u + 1).map_values(
                |o: ObservationView| uncited_of(o),
            ));
            u = u + 1;
        }
        let uncited_omitted = (uncited_count - candidates.len()) + (current.len() - served);
        // Trail.
        let tlen = self.navigation_trail.len();
        let shown = if tlen < WORKING_SET_TRAIL_LIMIT {
            tlen
        } else {
            WORKING_SET_TRAIL_LIMIT
        };
        let mut trail: Vec<WorkingSetEntry> = Vec::new();
        let mut t: usize = 0;
        while t < shown
            invariant
                t <= shown,
                shown <= tlen,
                tlen == self.navigation_trail@.len(),
                vseq(trail@) == reversed(vseq(self.navigation_trail@)).take(t as int),
            decreases shown - t,
        {
            let e = self.navigation_trail[tlen - 1 - t].clone();
            let ghost before = trail@;
            trail.push(e);
            assert(vseq(trail@) =~= vseq(before).push(e@));
            assert(vseq(trail@) =~= reversed(vseq(self.navigation_trail@)).take(t + 1));
            t = t + 1;
        }
        let r = WorkingSetView {
            locations,
            locations_omitted,
            uncited,
            uncited_omitted,
            trail,
            trail_omitted: tlen - shown,
        };
        assert(stable_order(location_keys(joined), order@));
        assert(stable_order(uncited_keys(cur), uorder@));
        r
    }
}

/// Window candidates are among the uncited observations.
proof fn lemma_window_within_uncited(
    obs: Seq<ObservationView>,
    cs: Seq<ClaimView>,
    ws: Seq<WorkingSetEntryView>,
    window: Option<Seq<u64>>,
)
    ensures
        count_where(obs, is_window_candidate(cs, ws, window)) <= count_where(obs, is_uncited(cs, ws)),
    decreases obs.len(),
{
    if obs.len() > 0 {
        lemma_window_within_uncited(obs.drop_last(), cs, ws, window);
    }
}


/// The ids of the newest `k` observations of `obs` that no claim cites and
/// no working-set entry focuses, oldest first.
pub open spec fn newest_uncited(
    obs: Seq<ObservationView>,
    cs: Seq<ClaimView>,
    ws: Seq<WorkingSetEntryView>,
    k: nat,
) -> Seq<u64>
    decreases obs.len(),
{
    if obs.len() == 0 || k == 0 {
        Seq::empty()
    } else if !cites(cs, obs.last().id) && !focuses(ws, obs.last().id) {
        newest_uncited(obs.drop_last(), cs, ws, (k - 1) as nat).push(obs.last().id)
    } else {
        newest_uncited(obs.drop_last(), cs, ws, k)
    }
}

/// The uncited observations a working-set view considers: the newest
/// `WORKING_SET_UNCITED_CANDIDATE_LIMIT` of the status's observations that no
/// active claim cites and no focus holds.
pub open spec fn uncited_window_spec(st: &WorkspaceStatus) -> Seq<u64> {
    newest_uncited(
        vseq(st.observations@),
        vseq(st.claims@),
        vseq(st.working_set@),
        WORKING_SET_UNCITED_CANDIDATE_LIMIT as nat,
    )
}

impl WorkspaceStatus {
    /// The uncited candidates of the working-set view, a window over the
    /// newest observations.
    pub fn uncited_window(&self) -> (r: Vec<u64>)
        ensures
            r@ == uncited_window_spec(self),
    {
        let ghost obs = vseq(self.observations@);
        let ghost cs = vseq(self.claims@);
        let ghost ws = vseq(self.working_set@);
        // Walk from the newest end, collecting into `rev` newest first.
        let mut rev: Vec<u64> = Vec::new();
        let mut i: usize = self.observations.len();
        let mut left: usize = WORKING_SET_UNCITED_CANDIDATE_LIMIT;
        assert(obs.take(i as int) =~= obs);
        while i > 0 && left > 0
            invariant
                i <= self.observations.len(),
                obs == vseq(self.observations@),
                cs == vseq(self.claims@),
                ws == vseq(self.working_set@),
                left <= WORKING_SET_UNCITED_CANDIDATE_LIMIT,
                newest_uncited(obs, cs, ws, WORKING_SET_UNCITED_CANDIDATE_LIMIT as nat)
                    == newest_uncited(obs.take(i as int), cs, ws, left as nat) + reversed(rev@),
            decreases i,
        {
            let o = &self.observations[i - 1];
            let ghost t = obs.take(i as int);
            assert(t.drop_last() =~= obs.take(i as int - 1));
            assert(t.last() == o@);
            if !claims_cite(&self.claims, o.id) && !entries_focus(&self.working_set, o.id) {
                let ghost r0 = rev@;
                rev.push(o.id);
                assert(reversed(rev@) =~= seq![o.id] + reversed(r0));
                left = left - 1;
            }
            i = i - 1;
        }
        proof {
            assert(newest_uncited(obs.take(i as int), cs, ws, left as nat) =~= Seq::<u64>::empty());
        }
        let mut out: Vec<u64> = Vec::new();
        let mut j: usize = rev.len();
        while j > 0
            invariant
                j <= rev@.len(),
                out@ == reversed(rev@).take((rev@.len() - j) as int),
            decreases j,
        {
            out.push(rev[j - 1]);
            j = j - 1;
            assert(out@ =~= reversed(rev@).take((rev@.len() - j) as int));
        }
        assert(out@ =~= reversed(rev@));
        out
    }

    /// The observations a working-set view reconciles: every focused one and
    /// the uncited window.
    pub fn working_set_reconcile_ids(&self) -> (r: Vec<u64>)
        ensures
            forall|id: u64| #[trigger] r@.contains(id) <==> (focuses(vseq(self.working_set@), id)
                || uncited_window_spec(self).contains(id)),
    {
        let mut out = self.uncited_window();
        let ghost w = out@;
        let mut i: usize = 0;
        while i < self.working_set.len()
            invariant
                i <= self.working_set.len(),
                forall|id: u64| #[trigger] out@.contains(id) <==> (w.contains(id) || exists|k: int|
                    0 <= k < i && (#[trigger] vseq(self.working_set@)[k]).observation_id == id),
                w == uncited_window_spec(self),
            decreases self.working_set.len() - i,
        {
            let id = self.working_set[i].observation_id;
            let ghost before = out@;
            out.push(id);
            proof {
                assert forall|x: u64| #[trigger] out@.contains(x) <==> (w.contains(x) || exists|k: int|
                    0 <= k < i + 1 && (#[trigger] vseq(self.working_set@)[k]).observation_id == x) by {
                    if out@.contains(x) {
                        let m = choose|m: int| 0 <= m < out@.len() && out@[m] == x;
                        if m < before.len() {
                            assert(before[m] == x);
                        } else {
                            assert(vseq(self.working_set@)[i as int].observation_id == x);
                        }
                    }
                    if before.contains(x) {
                        let m = choose|m: int| 0 <= m < before.len() && before[m] == x;
                        assert(out@[m] == x);
                    }
                    if exists|k: int| 0 <= k < i + 1 && (#[trigger] vseq(self.working_set@)[k]).observation_id == x {
                        let k = choose|k: int| 0 <= k < i + 1 && (#[trigger] vseq(self.working_set@)[k]).observation_id == x;
                        if k == i {
                            assert(out@[before.len() as int] == x);
                        }
                    }
                }
            }
            i = i + 1;
        }
        out
    }
}

} // verus!
